//! A table: a pager bound to its root page, and cursors over the root leaf.
use vstd::prelude::*;
use crate::error::DbError;
use crate::layout::{
    lemma_leaf_capacity, LEAF_NODE_MAX_CELLS, PAGE_SIZE, ROOT_PAGE_NUM, ROW_SIZE, TABLE_MAX_PAGES,
};
use crate::leaf::{
    empty_leaf, initialize_leaf_node, is_leaf_page, keys_of, leaf_append, leaf_node_key,
    leaf_node_num_cells, leaf_node_value, leaf_node_write_cell, lemma_append_keeps_leaf,
    lemma_empty_leaf, num_cells_of, rows_of, set_leaf_node_num_cells, value_of,
};
use crate::pager::{PageWrite, Pager};
use crate::row::{deserialize_row, Row};

verus! {

/// A table whose rows all live in the leaf on its root page.
pub struct Table {
    pub root_page_num: usize,
    pub pager: Pager,
}

/// A position in the root leaf's cell array.
pub struct Cursor {
    pub page_num: usize,
    pub cell_num: usize,
    pub end_of_table: bool,
}

impl Table {
    /// Only the root page is ever fetched; the backing file is never empty
    /// once the table is open; a fetched root is a leaf within capacity.
    pub open spec fn wf(&self) -> bool {
        &&& self.pager.wf()
        &&& self.root_page_num == ROOT_PAGE_NUM
        &&& forall|n: int| n != ROOT_PAGE_NUM ==> #[trigger] self.pager.cached(n) is None
        &&& self.pager.file_pages() == 0 ==> self.root_loaded()
        &&& self.root_loaded() ==> is_leaf_page(self.root_page())
    }

    /// The root page has been fetched.
    pub open spec fn root_loaded(&self) -> bool {
        self.pager.cached(ROOT_PAGE_NUM as int) is Some
    }

    /// The cached root page.
    pub open spec fn root_page(&self) -> Seq<u8> {
        self.pager.cached(ROOT_PAGE_NUM as int)->Some_0
    }

    /// A table ready for reading and writing.
    pub open spec fn ready(&self) -> bool {
        self.wf() && self.root_loaded()
    }

    /// The writes that closing the table performs, as (offset, bytes).
    pub open spec fn close_plan(&self) -> Seq<(int, Seq<u8>)> {
        if self.root_loaded() {
            seq![(0int, self.root_page())]
        } else {
            Seq::empty()
        }
    }

    /// Where the root page must be read from before `load_root`, when it is
    /// not cached yet.
    pub fn root_read_offset(&self) -> (r: Option<u64>)
        requires
            self.wf(),
        ensures
            r == (if self.root_loaded() {
                None
            } else {
                Some(0u64)
            }),
    {
        self.pager.page_read_offset(self.root_page_num)
    }

    /// Fetches the root page. `stored` is the first page of the backing file,
    /// read at the offset that `root_read_offset` gave; it is not looked at
    /// when the root is already cached. Fails without a change when `stored`
    /// is not one whole page, or holds more cells than a leaf can.
    pub fn load_root(&mut self, stored: Option<Vec<u8>>) -> (r: Result<(), DbError>)
        requires
            old(self).wf(),
        ensures
            final(self).wf(),
            old(self).root_loaded() ==> r is Ok && *final(self) == *old(self),
            !old(self).root_loaded() ==> match stored {
                None => r == Err::<(), DbError>(DbError::IncompletePage),
                Some(b) => if b@.len() != PAGE_SIZE {
                    r == Err::<(), DbError>(DbError::IncompletePage)
                } else if num_cells_of(b@) > LEAF_NODE_MAX_CELLS {
                    r == Err::<(), DbError>(DbError::CorruptPage)
                } else {
                    r is Ok
                },
            },
            r is Err ==> *final(self) == *old(self),
            r is Ok ==> final(self).ready(),
            r is Ok && !old(self).root_loaded() ==> final(self).root_page() == stored->Some_0@,
            final(self).pager.file_pages() == old(self).pager.file_pages(),
    {
        if self.pager.page_read_offset(self.root_page_num).is_none() {
            return Ok(());
        }
        match stored {
            None => Err(DbError::IncompletePage),
            Some(b) => {
                if b.len() != PAGE_SIZE {
                    return Err(DbError::IncompletePage);
                }
                let n = leaf_node_num_cells(b.as_slice());
                if n as usize > LEAF_NODE_MAX_CELLS {
                    return Err(DbError::CorruptPage);
                }
                let ghost bytes = b@;
                let r = self.pager.get_page(self.root_page_num, Some(b));
                assert(self.pager.cached(0) == Some(bytes));
                r
            },
        }
    }

    /// Appends `row` under its id after the last cell. Fails with
    /// `TableFull`, changing nothing, when the leaf is at capacity.
    pub fn insert(&mut self, row: &Row) -> (r: Result<(), DbError>)
        requires
            old(self).ready(),
        ensures
            final(self).ready(),
            final(self).pager.file_pages() == old(self).pager.file_pages(),
            num_cells_of(old(self).root_page()) >= LEAF_NODE_MAX_CELLS <==> r == Err::<
                (),
                DbError,
            >(DbError::TableFull),
            r is Err ==> r == Err::<(), DbError>(DbError::TableFull) && *final(self) == *old(self),
            r is Ok ==> final(self).root_page() == leaf_append(
                old(self).root_page(),
                row.id,
                row@,
            ),
    {
        let num_cells = leaf_node_num_cells(self.pager.page(self.root_page_num).as_slice());
        if num_cells as usize >= LEAF_NODE_MAX_CELLS {
            return Err(DbError::TableFull);
        }
        let cursor = Cursor::table_end(self);
        leaf_node_insert(self, &cursor, row.id, row);
        Ok(())
    }

    /// Every row, in cell order.
    pub fn scan(&self) -> (r: Vec<Row>)
        requires
            self.ready(),
        ensures
            r@.len() == rows_of(self.root_page()).len(),
            forall|i: int| 0 <= i < r@.len() ==> #[trigger] r@[i]@ == rows_of(self.root_page())[i],
    {
        let mut rows: Vec<Row> = Vec::new();
        let mut cursor = Cursor::table_start(self);
        while !cursor.end_of_table
            invariant
                self.ready(),
                cursor.valid_in(self),
                rows@.len() == cursor.cell_num,
                forall|i: int|
                    0 <= i < rows@.len() ==> #[trigger] rows@[i]@ == rows_of(self.root_page())[i],
            decreases num_cells_of(self.root_page()) - cursor.cell_num,
        {
            let slot = cursor.value(self);
            let row = deserialize_row(slot.as_slice());
            assert(slot@.subrange(0, ROW_SIZE as int) =~= slot@);
            rows.push(row);
            cursor.advance(self);
        }
        rows
    }

    /// The keys of the root leaf, in cell order.
    pub fn keys(&self) -> (r: Vec<u32>)
        requires
            self.ready(),
        ensures
            r@ == keys_of(self.root_page()),
    {
        proof {
            lemma_leaf_capacity();
        }
        let page = self.pager.page(self.root_page_num);
        let n = leaf_node_num_cells(page.as_slice());
        let mut keys: Vec<u32> = Vec::new();
        let mut i: u32 = 0;
        while i < n
            invariant
                page@ == self.root_page(),
                is_leaf_page(page@),
                n == num_cells_of(page@),
                i <= n,
                keys@ == keys_of(page@).subrange(0, i as int),
            decreases n - i,
        {
            keys.push(leaf_node_key(page.as_slice(), i));
            i += 1;
            assert(keys@ =~= keys_of(page@).subrange(0, i as int));
        }
        assert(keys@ =~= keys_of(page@));
        keys
    }
}

impl Cursor {
    /// The cursor points into the root leaf of `t`, at or before its end, and
    /// is at the end exactly when no cell is left.
    pub open spec fn valid_in(&self, t: &Table) -> bool {
        &&& self.page_num == t.root_page_num
        &&& self.cell_num <= num_cells_of(t.root_page())
        &&& self.end_of_table == (self.cell_num == num_cells_of(t.root_page()))
    }

    /// A cursor on the first cell of the root leaf.
    pub fn table_start(table: &Table) -> (r: Cursor)
        requires
            table.ready(),
        ensures
            r.valid_in(table),
            r.page_num == table.root_page_num,
            r.cell_num == 0,
            r.end_of_table == (num_cells_of(table.root_page()) == 0),
    {
        let num_cells = leaf_node_num_cells(table.pager.page(table.root_page_num).as_slice());
        Cursor { page_num: table.root_page_num, cell_num: 0, end_of_table: num_cells == 0 }
    }

    /// A cursor just past the last cell of the root leaf: where the next row
    /// goes.
    pub fn table_end(table: &Table) -> (r: Cursor)
        requires
            table.ready(),
        ensures
            r.valid_in(table),
            r.page_num == table.root_page_num,
            r.cell_num == num_cells_of(table.root_page()),
            r.end_of_table,
    {
        let num_cells = leaf_node_num_cells(table.pager.page(table.root_page_num).as_slice());
        Cursor { page_num: table.root_page_num, cell_num: num_cells as usize, end_of_table: true }
    }

    /// A copy of the encoded row under the cursor.
    pub fn value(&self, table: &Table) -> (r: Vec<u8>)
        requires
            table.ready(),
            self.valid_in(table),
            !self.end_of_table,
        ensures
            r@ == value_of(table.root_page(), self.cell_num as int),
            r@.len() == ROW_SIZE,
    {
        proof {
            lemma_leaf_capacity();
        }
        leaf_node_value(table.pager.page(self.page_num).as_slice(), self.cell_num as u32)
    }

    /// Moves to the next cell; at the end once no cell is left.
    pub fn advance(&mut self, table: &Table)
        requires
            table.ready(),
            old(self).valid_in(table),
            !old(self).end_of_table,
        ensures
            final(self).valid_in(table),
            final(self).page_num == old(self).page_num,
            final(self).cell_num == old(self).cell_num + 1,
    {
        self.cell_num += 1;
        let num_cells = leaf_node_num_cells(table.pager.page(self.page_num).as_slice());
        if self.cell_num >= num_cells as usize {
            self.end_of_table = true;
        }
    }
}

/// Writes `key` and `value` into the cell at the cursor, which stands at the
/// end of a leaf that has room, and counts the new cell.
pub fn leaf_node_insert(table: &mut Table, cursor: &Cursor, key: u32, value: &Row)
    requires
        old(table).ready(),
        cursor.valid_in(&*old(table)),
        cursor.end_of_table,
        num_cells_of(old(table).root_page()) < LEAF_NODE_MAX_CELLS,
    ensures
        final(table).ready(),
        final(table).pager.file_pages() == old(table).pager.file_pages(),
        final(table).root_page() == leaf_append(old(table).root_page(), key, value@),
{
    proof {
        lemma_leaf_capacity();
        lemma_append_keeps_leaf(old(table).root_page(), key, value@);
    }
    let page = table.pager.page_mut(cursor.page_num);
    let num_cells = leaf_node_num_cells(page.as_slice());
    leaf_node_write_cell(page.as_mut_slice(), cursor.cell_num as u32, key, value);
    set_leaf_node_num_cells(page.as_mut_slice(), num_cells + 1);
}

/// Opens a table over a backing file of `file_length` bytes. An empty file
/// gets a fresh empty root leaf; otherwise the root is fetched on demand
/// (`root_read_offset`, `load_root`). Fails, with nothing fetched, when the
/// length is not a whole number of pages.
pub fn db_open(file_length: u64) -> (r: Result<Table, DbError>)
    ensures
        file_length % (PAGE_SIZE as u64) == 0 <==> r is Ok,
        r is Err ==> r matches Err(DbError::InvalidFileLength),
        r matches Ok(t) ==> {
            &&& t.wf()
            &&& t.pager.file_pages() == file_length as nat / PAGE_SIZE as nat
            &&& file_length == 0 ==> t.root_loaded() && t.root_page() == empty_leaf()
            &&& file_length != 0 ==> !t.root_loaded()
        },
{
    let mut pager = match Pager::new(file_length) {
        Ok(p) => p,
        Err(e) => {
            return Err(e);
        },
    };
    if file_length == 0 {
        let _ = pager.get_page(ROOT_PAGE_NUM, None);
        let page = pager.page_mut(ROOT_PAGE_NUM);
        initialize_leaf_node(page.as_mut_slice());
        proof {
            lemma_leaf_capacity();
            lemma_empty_leaf();
        }
    }
    Ok(Table { root_page_num: ROOT_PAGE_NUM, pager })
}

/// The writes that save the table: every fetched page up to the highest page
/// known, in ascending order, each whole at its offset. No further operation
/// on the table is expected afterwards.
pub fn db_close(table: &Table) -> (r: Vec<PageWrite>)
    requires
        table.wf(),
    ensures
        r@.len() == table.close_plan().len(),
        forall|i: int|
            0 <= i < r@.len() ==> (#[trigger] r@[i]).offset == table.close_plan()[i].0
                && r@[i].bytes@ == table.close_plan()[i].1,
{
    let mut writes: Vec<PageWrite> = Vec::new();
    proof {
        if table.root_loaded() {
            table.pager.lemma_cached_page(ROOT_PAGE_NUM as int);
        }
    }
    let limit: u64 = if table.pager.page_count() < TABLE_MAX_PAGES as u64 {
        table.pager.page_count()
    } else {
        TABLE_MAX_PAGES as u64
    };
    let mut i: u64 = 0;
    while i < limit
        invariant
            table.wf(),
            limit <= TABLE_MAX_PAGES,
            table.root_loaded() ==> limit >= 1,
            i <= limit,
            writes@.len() == (if table.root_loaded() && i > 0 { 1int } else { 0 }),
            writes@.len() == 1 ==> writes@[0].offset == 0 && writes@[0].bytes@
                == table.root_page(),
        decreases limit - i,
    {
        if let Some(w) = table.pager.flush(i as usize) {
            writes.push(w);
        }
        i += 1;
    }
    writes
}

} // verus!
