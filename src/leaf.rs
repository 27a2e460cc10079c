//! Layout of a leaf page: a header, then an array of (key, encoded row) cells
//! in insertion order. These functions work on whatever page buffer they are
//! handed; they own nothing.
use vstd::prelude::*;
use vstd::bytes::{
    lemma_auto_spec_u32_to_from_le_bytes, spec_u32_from_le_bytes, spec_u32_to_le_bytes,
    u32_from_le_bytes, u32_to_le_bytes,
};
use crate::layout::{
    lemma_leaf_capacity, IS_ROOT_OFFSET, LEAF_NODE_CELL_SIZE, LEAF_NODE_HEADER_SIZE, LEAF_NODE_KEY_SIZE,
    LEAF_NODE_MAX_CELLS, LEAF_NODE_NUM_CELLS_OFFSET,
    LEAF_NODE_VALUE_OFFSET, LEAF_NODE_VALUE_SIZE, NODE_KIND_LEAF, NODE_TYPE_OFFSET, PAGE_SIZE,
    ROW_SIZE,
};
use crate::row::{
    decode_row, encode_row, lemma_row_round_trip, overwrite, storable, text_field, write_field,
    write_row_at,
    Row, RowView,
};

verus! {

/// The little-endian `u32` stored at `at`.
pub open spec fn u32_at(page: Seq<u8>, at: int) -> u32 {
    spec_u32_from_le_bytes(page.subrange(at, at + 4))
}

/// The cell count in a leaf page's header.
pub open spec fn num_cells_of(page: Seq<u8>) -> u32 {
    u32_at(page, LEAF_NODE_NUM_CELLS_OFFSET as int)
}

/// Where cell `i` starts.
pub open spec fn cell_offset(i: int) -> int {
    LEAF_NODE_HEADER_SIZE + i * LEAF_NODE_CELL_SIZE
}

/// The key of cell `i`.
pub open spec fn key_of(page: Seq<u8>, i: int) -> u32 {
    u32_at(page, cell_offset(i))
}

/// The encoded row of cell `i`.
pub open spec fn value_of(page: Seq<u8>, i: int) -> Seq<u8> {
    page.subrange(cell_offset(i) + LEAF_NODE_VALUE_OFFSET, cell_offset(i) + LEAF_NODE_CELL_SIZE)
}

/// A page-sized buffer whose cell count is within the leaf's capacity.
pub open spec fn is_leaf_page(page: Seq<u8>) -> bool {
    &&& page.len() == PAGE_SIZE
    &&& num_cells_of(page) <= LEAF_NODE_MAX_CELLS
}

/// The rows of a leaf page, in cell order.
pub open spec fn rows_of(page: Seq<u8>) -> Seq<RowView> {
    Seq::new(num_cells_of(page) as nat, |i: int| decode_row(value_of(page, i)))
}

/// The keys of a leaf page, in cell order.
pub open spec fn keys_of(page: Seq<u8>) -> Seq<u32> {
    Seq::new(num_cells_of(page) as nat, |i: int| key_of(page, i))
}

/// The bytes of a cell.
pub open spec fn cell_bytes(key: u32, row: RowView) -> Seq<u8> {
    spec_u32_to_le_bytes(key) + encode_row(row)
}

/// The page with its cell count set to `n`.
pub open spec fn with_num_cells(page: Seq<u8>, n: u32) -> Seq<u8> {
    overwrite(page, LEAF_NODE_NUM_CELLS_OFFSET as int, spec_u32_to_le_bytes(n))
}

/// The page with a cell for `row` under `key` appended after its last cell.
pub open spec fn leaf_append(page: Seq<u8>, key: u32, row: RowView) -> Seq<u8> {
    let n = num_cells_of(page);
    with_num_cells(overwrite(page, cell_offset(n as int), cell_bytes(key, row)), (n + 1) as u32)
}

/// The page with a leaf header for a root leaf with no cells.
pub open spec fn initialized_leaf(page: Seq<u8>) -> Seq<u8> {
    with_num_cells(
        page.update(NODE_TYPE_OFFSET as int, NODE_KIND_LEAF).update(IS_ROOT_OFFSET as int, 1u8),
        0,
    )
}

/// An empty root leaf, as a fresh zero-filled page becomes when initialized.
pub open spec fn empty_leaf() -> Seq<u8> {
    initialized_leaf(Seq::new(PAGE_SIZE as nat, |i: int| 0u8))
}

/// The page after appending each row in turn, under its id.
pub open spec fn append_rows(page: Seq<u8>, rows: Seq<RowView>) -> Seq<u8>
    decreases rows.len(),
{
    if rows.len() == 0 {
        page
    } else {
        leaf_append(append_rows(page, rows.drop_last()), rows.last().id, rows.last())
    }
}

proof fn lemma_cell_offsets(i: int, j: int)
    requires
        0 <= i < j,
    ensures
        cell_offset(i) + LEAF_NODE_CELL_SIZE <= cell_offset(j),
        j <= LEAF_NODE_MAX_CELLS ==> cell_offset(j) <= PAGE_SIZE,
{
    lemma_leaf_capacity();
    assert(i * 295 + 295 <= j * 295) by (nonlinear_arith)
        requires
            i < j,
    ;
    assert(j <= 13 ==> j * 295 <= 13 * 295) by (nonlinear_arith);
}

proof fn lemma_overwrite_index(s: Seq<u8>, at: int, b: Seq<u8>, k: int)
    requires
        0 <= at,
        at + b.len() <= s.len(),
        0 <= k < s.len(),
    ensures
        overwrite(s, at, b).len() == s.len(),
        overwrite(s, at, b)[k] == if at <= k < at + b.len() {
            b[k - at]
        } else {
            s[k]
        },
{
}

/// Appending a cell keeps every earlier cell and adds the new one last.
pub proof fn lemma_append_cell(page: Seq<u8>, key: u32, row: RowView)
    requires
        is_leaf_page(page),
        num_cells_of(page) < LEAF_NODE_MAX_CELLS,
    ensures
        is_leaf_page(leaf_append(page, key, row)),
        num_cells_of(leaf_append(page, key, row)) == num_cells_of(page) + 1,
        rows_of(leaf_append(page, key, row)) == rows_of(page).push(decode_row(encode_row(row))),
        keys_of(leaf_append(page, key, row)) == keys_of(page).push(key),
{
    lemma_append_keeps_leaf(page, key, row);
    lemma_leaf_capacity();
    lemma_auto_spec_u32_to_from_le_bytes();
    let n = num_cells_of(page) as int;
    let off = cell_offset(n);
    let cell = cell_bytes(key, row);
    let mid = overwrite(page, off, cell);
    let grown = leaf_append(page, key, row);
    let count = spec_u32_to_le_bytes((n + 1) as u32);
    assert(encode_row(row).len() == ROW_SIZE);
    lemma_cell_offsets(n, n + 1);
    assert forall|k: int| 0 <= k < PAGE_SIZE implies #[trigger] grown[k] == if
        LEAF_NODE_NUM_CELLS_OFFSET <= k < LEAF_NODE_NUM_CELLS_OFFSET + 4 {
        count[k - LEAF_NODE_NUM_CELLS_OFFSET]
    } else if off <= k < off + LEAF_NODE_CELL_SIZE {
        cell[k - off]
    } else {
        page[k]
    } by {
        lemma_overwrite_index(page, off, cell, k);
        lemma_overwrite_index(mid, LEAF_NODE_NUM_CELLS_OFFSET as int, count, k);
    }
    assert forall|i: int| 0 <= i < n implies value_of(grown, i) == value_of(page, i) && key_of(grown, i)
        == key_of(page, i) by {
        lemma_cell_offsets(i, n);
        assert(value_of(grown, i) =~= value_of(page, i));
        assert(grown.subrange(cell_offset(i), cell_offset(i) + 4) =~= page.subrange(
            cell_offset(i),
            cell_offset(i) + 4,
        ));
    }
    assert(value_of(grown, n) =~= encode_row(row));
    assert(grown.subrange(off, off + 4) =~= spec_u32_to_le_bytes(key));
    assert(rows_of(grown) =~= rows_of(page).push(decode_row(encode_row(row))));
    assert(keys_of(grown) =~= keys_of(page).push(key));
}

/// The cell count after appending rows to a leaf that has room for them.
pub proof fn lemma_count_after_appends(page: Seq<u8>, rows: Seq<RowView>)
    requires
        is_leaf_page(page),
        num_cells_of(page) + rows.len() <= LEAF_NODE_MAX_CELLS,
    ensures
        is_leaf_page(append_rows(page, rows)),
        num_cells_of(append_rows(page, rows)) == num_cells_of(page) + rows.len(),
    decreases rows.len(),
{
    if rows.len() > 0 {
        lemma_count_after_appends(page, rows.drop_last());
        lemma_append_keeps_leaf(append_rows(page, rows.drop_last()), rows.last().id, rows.last());
    }
}

/// Filling a fresh leaf with as many rows as it holds leaves it exactly
/// full, so the next insert is refused.
pub proof fn lemma_fill_to_capacity(rows: Seq<RowView>)
    requires
        rows.len() == LEAF_NODE_MAX_CELLS,
    ensures
        is_leaf_page(append_rows(empty_leaf(), rows)),
        num_cells_of(append_rows(empty_leaf(), rows)) == LEAF_NODE_MAX_CELLS,
{
    lemma_empty_leaf();
    lemma_count_after_appends(empty_leaf(), rows);
}

/// Rows appended to a leaf read back after the rows it held, in the order
/// they were appended, whatever their keys.
pub proof fn lemma_rows_after_appends(page: Seq<u8>, rows: Seq<RowView>)
    requires
        is_leaf_page(page),
        num_cells_of(page) + rows.len() <= LEAF_NODE_MAX_CELLS,
        forall|i: int| 0 <= i < rows.len() ==> storable(#[trigger] rows[i]),
    ensures
        is_leaf_page(append_rows(page, rows)),
        rows_of(append_rows(page, rows)) == rows_of(page) + rows,
    decreases rows.len(),
{
    if rows.len() == 0 {
        assert(rows_of(page) + rows =~= rows_of(page));
    } else {
        let init = rows.drop_last();
        let last = rows.last();
        assert(storable(rows[rows.len() - 1]));
        lemma_rows_after_appends(page, init);
        lemma_count_after_appends(page, init);
        lemma_append_cell(append_rows(page, init), last.id, last);
        lemma_row_round_trip(last);
        assert(rows_of(page) + rows =~= (rows_of(page) + init).push(last));
    }
}

/// Appending to a leaf with room keeps it a leaf, one cell longer.
pub proof fn lemma_append_keeps_leaf(page: Seq<u8>, key: u32, row: RowView)
    requires
        is_leaf_page(page),
        num_cells_of(page) < LEAF_NODE_MAX_CELLS,
    ensures
        is_leaf_page(leaf_append(page, key, row)),
        num_cells_of(leaf_append(page, key, row)) == num_cells_of(page) + 1,
{
    lemma_leaf_capacity();
    lemma_auto_spec_u32_to_from_le_bytes();
    let n = num_cells_of(page);
    let cell = cell_bytes(key, row);
    let mid = overwrite(page, cell_offset(n as int), cell);
    assert(encode_row(row).len() == ROW_SIZE);
    assert(cell.len() == LEAF_NODE_CELL_SIZE);
    assert(mid.len() == PAGE_SIZE);
    let last = with_num_cells(mid, (n + 1) as u32);
    assert(last.subrange(LEAF_NODE_NUM_CELLS_OFFSET as int, LEAF_NODE_NUM_CELLS_OFFSET + 4)
        =~= spec_u32_to_le_bytes((n + 1) as u32));
}

/// An empty leaf is a leaf with no cells.
pub proof fn lemma_empty_leaf()
    ensures
        is_leaf_page(empty_leaf()),
        num_cells_of(empty_leaf()) == 0,
        rows_of(empty_leaf()) == Seq::<RowView>::empty(),
{
    lemma_auto_spec_u32_to_from_le_bytes();
    let e = empty_leaf();
    assert(e.subrange(LEAF_NODE_NUM_CELLS_OFFSET as int, LEAF_NODE_NUM_CELLS_OFFSET + 4)
        =~= spec_u32_to_le_bytes(0));
    assert(rows_of(e) =~= Seq::<RowView>::empty());
}

/// Reads the little-endian `u32` at `at`.
fn read_u32_at(src: &[u8], at: usize) -> (r: u32)
    requires
        at + 4 <= src@.len(),
    ensures
        r == u32_at(src@, at as int),
{
    let len = src.len();
    let mut bytes: Vec<u8> = Vec::new();
    let mut i: usize = 0;
    while i < 4
        invariant
            i <= 4,
            at + 4 <= len,
            len == src@.len(),
            bytes@ == src@.subrange(at as int, at + i),
        decreases 4 - i,
    {
        bytes.push(src[at + i]);
        i += 1;
        assert(bytes@ =~= src@.subrange(at as int, at + i));
    }
    u32_from_le_bytes(bytes.as_slice())
}

/// Writes `x` as four little-endian bytes at `at`.
fn write_u32_at(dest: &mut [u8], at: usize, x: u32)
    requires
        at + 4 <= old(dest)@.len(),
    ensures
        final(dest)@ == overwrite(old(dest)@, at as int, spec_u32_to_le_bytes(x)),
{
    proof {
        lemma_auto_spec_u32_to_from_le_bytes();
    }
    let bytes = u32_to_le_bytes(x);
    write_field(dest, at, bytes.as_slice(), 4);
    assert(text_field(bytes@, 4) =~= spec_u32_to_le_bytes(x));
}

/// The cell count in the header.
pub fn leaf_node_num_cells(node: &[u8]) -> (r: u32)
    requires
        node@.len() == PAGE_SIZE,
    ensures
        r == num_cells_of(node@),
{
    read_u32_at(node, LEAF_NODE_NUM_CELLS_OFFSET)
}

/// Sets the cell count in the header; nothing else changes.
pub fn set_leaf_node_num_cells(node: &mut [u8], num_cells: u32)
    requires
        old(node)@.len() == PAGE_SIZE,
    ensures
        final(node)@ == with_num_cells(old(node)@, num_cells),
{
    write_u32_at(node, LEAF_NODE_NUM_CELLS_OFFSET, num_cells);
}

/// Where cell `cell_num` starts in the page.
pub fn leaf_node_cell_offset(cell_num: u32) -> (r: usize)
    requires
        cell_num <= LEAF_NODE_MAX_CELLS,
    ensures
        r == cell_offset(cell_num as int),
{
    proof {
        lemma_leaf_capacity();
    }
    LEAF_NODE_HEADER_SIZE + (cell_num as usize * LEAF_NODE_CELL_SIZE)
}

/// The key of cell `cell_num`.
pub fn leaf_node_key(node: &[u8], cell_num: u32) -> (r: u32)
    requires
        node@.len() == PAGE_SIZE,
        cell_num < LEAF_NODE_MAX_CELLS,
    ensures
        r == key_of(node@, cell_num as int),
{
    proof {
        lemma_leaf_capacity();
    }
    let offset = leaf_node_cell_offset(cell_num);
    read_u32_at(node, offset)
}

/// A copy of the encoded row of cell `cell_num`.
pub fn leaf_node_value(node: &[u8], cell_num: u32) -> (r: Vec<u8>)
    requires
        node@.len() == PAGE_SIZE,
        cell_num < LEAF_NODE_MAX_CELLS,
    ensures
        r@ == value_of(node@, cell_num as int),
        r@.len() == ROW_SIZE,
{
    proof {
        lemma_leaf_capacity();
    }
    let offset = leaf_node_cell_offset(cell_num) + LEAF_NODE_VALUE_OFFSET;
    let mut value: Vec<u8> = Vec::new();
    let mut i: usize = 0;
    while i < LEAF_NODE_VALUE_SIZE
        invariant
            i <= LEAF_NODE_VALUE_SIZE,
            offset == cell_offset(cell_num as int) + LEAF_NODE_VALUE_OFFSET,
            offset + LEAF_NODE_VALUE_SIZE <= PAGE_SIZE,
            node@.len() == PAGE_SIZE,
            value@ == node@.subrange(offset as int, offset + i),
        decreases LEAF_NODE_VALUE_SIZE - i,
    {
        value.push(node[offset + i]);
        i += 1;
        assert(value@ =~= node@.subrange(offset as int, offset + i));
    }
    value
}

/// Writes `key` and the encoded `row` into cell `cell_num`; the header and
/// the other cells are left as they are.
pub fn leaf_node_write_cell(node: &mut [u8], cell_num: u32, key: u32, row: &Row)
    requires
        old(node)@.len() == PAGE_SIZE,
        cell_num < LEAF_NODE_MAX_CELLS,
    ensures
        final(node)@ == overwrite(old(node)@, cell_offset(cell_num as int), cell_bytes(key, row@)),
{
    proof {
        lemma_leaf_capacity();
        lemma_auto_spec_u32_to_from_le_bytes();
    }
    let offset = leaf_node_cell_offset(cell_num);
    let ghost before = node@;
    write_u32_at(node, offset, key);
    write_row_at(row, node, offset + LEAF_NODE_KEY_SIZE);
    assert(node@ =~= overwrite(before, offset as int, cell_bytes(key, row@)));
}

/// Gives the page the header of an empty root leaf.
pub fn initialize_leaf_node(node: &mut [u8])
    requires
        old(node)@.len() == PAGE_SIZE,
    ensures
        final(node)@ == initialized_leaf(old(node)@),
{
    node[NODE_TYPE_OFFSET] = NODE_KIND_LEAF;
    node[IS_ROOT_OFFSET] = 1;
    set_leaf_node_num_cells(node, 0);
}

} // verus!
