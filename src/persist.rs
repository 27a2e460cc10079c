//! The backing file as a sequence of bytes, and what survives closing a
//! table and opening its file again.
use vstd::prelude::*;
use crate::layout::{LEAF_NODE_MAX_CELLS, PAGE_SIZE};
use crate::leaf::{
    append_rows, empty_leaf, is_leaf_page, lemma_empty_leaf, lemma_rows_after_appends,
    num_cells_of, rows_of,
};
use crate::row::{storable, RowView};
use crate::table::Table;

verus! {

/// The file after writing `bytes` at `offset`; a write past the end extends
/// the file, and a gap before it reads as zeros.
pub open spec fn write_at(file: Seq<u8>, offset: int, bytes: Seq<u8>) -> Seq<u8> {
    let end = offset + bytes.len();
    let len = if end > file.len() {
        end
    } else {
        file.len() as int
    };
    Seq::new(
        len as nat,
        |i: int|
            if offset <= i < end {
                bytes[i - offset]
            } else if i < file.len() {
                file[i]
            } else {
                0u8
            },
    )
}

/// The file after performing the writes in order.
pub open spec fn apply_writes(file: Seq<u8>, writes: Seq<(int, Seq<u8>)>) -> Seq<u8>
    decreases writes.len(),
{
    if writes.len() == 0 {
        file
    } else {
        apply_writes(write_at(file, writes[0].0, writes[0].1), writes.drop_first())
    }
}

/// Page `n` of a file.
pub open spec fn page_of(file: Seq<u8>, n: int) -> Seq<u8> {
    file.subrange(n * PAGE_SIZE, (n + 1) * PAGE_SIZE)
}

/// The root page that a table opened on `file` works with: a fresh empty
/// leaf for an empty file, otherwise the file's first page.
pub open spec fn opened_root(file: Seq<u8>) -> Seq<u8> {
    if file.len() == 0 {
        empty_leaf()
    } else {
        page_of(file, 0)
    }
}

/// The file after one session: open the table on `file`, insert `rows` in
/// order, close it.
pub open spec fn session(file: Seq<u8>, rows: Seq<RowView>) -> Seq<u8> {
    apply_writes(file, seq![(0int, append_rows(opened_root(file), rows))])
}

proof fn lemma_write_root(file: Seq<u8>, root: Seq<u8>)
    requires
        file.len() % (PAGE_SIZE as nat) == 0,
        root.len() == PAGE_SIZE,
    ensures
        apply_writes(file, seq![(0int, root)]).len() % (PAGE_SIZE as nat) == 0,
        apply_writes(file, seq![(0int, root)]).len() > 0,
        opened_root(apply_writes(file, seq![(0int, root)])) == root,
{
    let w = seq![(0int, root)];
    let f2 = write_at(file, 0, root);
    assert(w.drop_first() =~= Seq::<(int, Seq<u8>)>::empty());
    assert(apply_writes(f2, w.drop_first()) == f2);
    assert(apply_writes(file, w) == f2);
    if file.len() > 0 {
        assert(file.len() >= PAGE_SIZE);
    }
    assert(page_of(f2, 0) =~= root);
}

/// Closing a table and opening its file again gives back the root page it
/// had, and so the same rows in the same order.
pub proof fn lemma_close_then_reopen(table: Table, file: Seq<u8>)
    requires
        table.ready(),
        file.len() % (PAGE_SIZE as nat) == 0,
    ensures
        apply_writes(file, table.close_plan()).len() % (PAGE_SIZE as nat) == 0,
        apply_writes(file, table.close_plan()).len() > 0,
        opened_root(apply_writes(file, table.close_plan())) == table.root_page(),
        rows_of(opened_root(apply_writes(file, table.close_plan()))) == rows_of(
            table.root_page(),
        ),
{
    lemma_write_root(file, table.root_page());
}

/// A session that inserts rows into the table of a file leaves a file whose
/// table holds the rows it had, then the new rows in the order inserted.
pub proof fn lemma_session_appends(file: Seq<u8>, rows: Seq<RowView>)
    requires
        file.len() % (PAGE_SIZE as nat) == 0,
        is_leaf_page(opened_root(file)),
        num_cells_of(opened_root(file)) + rows.len() <= LEAF_NODE_MAX_CELLS,
        forall|i: int| 0 <= i < rows.len() ==> storable(#[trigger] rows[i]),
    ensures
        session(file, rows).len() % (PAGE_SIZE as nat) == 0,
        session(file, rows).len() > 0,
        is_leaf_page(opened_root(session(file, rows))),
        rows_of(opened_root(session(file, rows))) == rows_of(opened_root(file)) + rows,
{
    lemma_rows_after_appends(opened_root(file), rows);
    lemma_write_root(file, append_rows(opened_root(file), rows));
}

/// Three sessions on a file that starts empty, each inserting its rows,
/// leave a table that holds every row of all three, in the order inserted.
pub proof fn lemma_sessions_accumulate(
    first: Seq<RowView>,
    second: Seq<RowView>,
    third: Seq<RowView>,
)
    requires
        first.len() + second.len() + third.len() <= LEAF_NODE_MAX_CELLS,
        forall|i: int| 0 <= i < first.len() ==> storable(#[trigger] first[i]),
        forall|i: int| 0 <= i < second.len() ==> storable(#[trigger] second[i]),
        forall|i: int| 0 <= i < third.len() ==> storable(#[trigger] third[i]),
    ensures
        rows_of(opened_root(session(session(session(Seq::empty(), first), second), third)))
            == first + second + third,
{
    lemma_empty_leaf();
    let f0 = Seq::<u8>::empty();
    assert(opened_root(f0) == empty_leaf());
    lemma_session_appends(f0, first);
    assert(rows_of(empty_leaf()) + first =~= first);
    let f1 = session(f0, first);
    assert(rows_of(opened_root(f1)).len() == num_cells_of(opened_root(f1)));
    lemma_session_appends(f1, second);
    let f2 = session(f1, second);
    assert(rows_of(opened_root(f2)).len() == num_cells_of(opened_root(f2)));
    lemma_session_appends(f2, third);
}

} // verus!
