use pagedb::{
    db_close, db_open, leaf_node_insert, leaf_node_num_cells, Cursor, DbError, PageWrite, Pager,
    Row, Table, LEAF_NODE_MAX_CELLS, PAGE_SIZE, TABLE_MAX_PAGES,
};

fn row(id: u32, username: &str, email: &str) -> Row {
    Row { id, username: username.to_string(), email: email.to_string() }
}

/// Opens a table on an in-memory file image, fetching the root as needed.
fn open(file: &[u8]) -> Table {
    let mut table = db_open(file.len() as u64).expect("whole pages");
    if let Some(offset) = table.root_read_offset() {
        let start = offset as usize;
        let page = file[start..start + PAGE_SIZE].to_vec();
        table.load_root(Some(page)).expect("valid root");
    }
    table
}

/// Performs the writes of a close on an in-memory file image.
fn apply(file: &mut Vec<u8>, writes: &[PageWrite]) {
    for w in writes {
        let start = w.offset as usize;
        if file.len() < start + w.bytes.len() {
            file.resize(start + w.bytes.len(), 0);
        }
        file[start..start + w.bytes.len()].copy_from_slice(&w.bytes);
    }
}

fn session(file: &mut Vec<u8>, rows: &[Row]) {
    let mut table = open(file);
    for r in rows {
        table.insert(r).expect("room");
    }
    let writes = db_close(&table);
    apply(file, &writes);
}

#[test]
fn fresh_table_is_empty() {
    let table = open(&[]);
    assert!(table.scan().is_empty());
    assert!(table.keys().is_empty());
    assert_eq!(table.root_read_offset(), None);
}

#[test]
fn fresh_root_page_has_leaf_header() {
    let table = open(&[]);
    let writes = db_close(&table);
    assert_eq!(writes.len(), 1);
    assert_eq!(writes[0].offset, 0);
    assert_eq!(writes[0].bytes.len(), PAGE_SIZE);
    assert_eq!(writes[0].bytes[0], 1);
    assert_eq!(writes[0].bytes[1], 1);
    assert_eq!(&writes[0].bytes[2..10], &[0u8; 8]);
}

#[test]
fn leaf_capacity_is_thirteen() {
    assert_eq!(LEAF_NODE_MAX_CELLS, 13);
}

#[test]
fn capacity_plus_one_insert_is_refused() {
    let mut table = open(&[]);
    for i in 0..LEAF_NODE_MAX_CELLS as u32 {
        assert_eq!(table.insert(&row(i, "u", "e")), Ok(()));
    }
    assert_eq!(table.insert(&row(99, "late", "late@x")), Err(DbError::TableFull));
    let rows = table.scan();
    assert_eq!(rows.len(), LEAF_NODE_MAX_CELLS);
    assert!(rows.iter().all(|r| r.id != 99));
    let writes = db_close(&table);
    assert_eq!(leaf_node_num_cells(&writes[0].bytes), LEAF_NODE_MAX_CELLS as u32);
}

#[test]
fn scan_keeps_insertion_order_not_key_order() {
    let mut table = open(&[]);
    let rows = vec![row(30, "c", "c@x"), row(10, "a", "a@x"), row(20, "b", "b@x"), row(10, "d", "d@x")];
    for r in &rows {
        table.insert(r).unwrap();
    }
    assert_eq!(table.scan(), rows);
    assert_eq!(table.keys(), vec![30, 10, 20, 10]);
}

#[test]
fn persistence_single_session() {
    let mut file = Vec::new();
    session(&mut file, &[row(1, "alice", "alice@example.com"), row(2, "bob", "bob@example.com")]);
    assert_eq!(file.len(), PAGE_SIZE);
    let table = open(&file);
    assert_eq!(
        table.scan(),
        vec![row(1, "alice", "alice@example.com"), row(2, "bob", "bob@example.com")]
    );
}

#[test]
fn persistence_three_sessions() {
    let mut file = Vec::new();
    session(&mut file, &[row(1, "user1", "user1@example.com")]);
    session(&mut file, &[row(2, "user2", "user2@example.com")]);
    session(&mut file, &[row(3, "user3", "user3@example.com")]);
    let table = open(&file);
    assert_eq!(
        table.scan(),
        vec![
            row(1, "user1", "user1@example.com"),
            row(2, "user2", "user2@example.com"),
            row(3, "user3", "user3@example.com"),
        ]
    );
}

#[test]
fn reopened_table_waits_for_its_root() {
    let mut file = Vec::new();
    session(&mut file, &[row(5, "e", "e@x")]);
    let mut table = db_open(file.len() as u64).unwrap();
    assert_eq!(table.root_read_offset(), Some(0));
    // closing before the root is fetched writes nothing
    assert!(db_close(&table).is_empty());
    table.load_root(Some(file[..PAGE_SIZE].to_vec())).unwrap();
    assert_eq!(table.root_read_offset(), None);
    assert_eq!(table.scan(), vec![row(5, "e", "e@x")]);
}

#[test]
fn open_rejects_partial_pages() {
    assert!(matches!(db_open(1), Err(DbError::InvalidFileLength)));
    assert!(matches!(db_open(PAGE_SIZE as u64 + 1), Err(DbError::InvalidFileLength)));
    assert!(matches!(db_open(PAGE_SIZE as u64 - 1), Err(DbError::InvalidFileLength)));
    assert!(db_open(2 * PAGE_SIZE as u64).is_ok());
    assert!(matches!(Pager::new(10), Err(DbError::InvalidFileLength)));
}

#[test]
fn load_root_rejects_short_and_corrupt_pages() {
    let mut table = db_open(PAGE_SIZE as u64).unwrap();
    assert_eq!(table.load_root(None), Err(DbError::IncompletePage));
    assert_eq!(table.load_root(Some(vec![0u8; PAGE_SIZE - 1])), Err(DbError::IncompletePage));
    let mut page = vec![0u8; PAGE_SIZE];
    page[6] = 14;
    assert_eq!(table.load_root(Some(page)), Err(DbError::CorruptPage));
    assert_eq!(table.root_read_offset(), Some(0));
    assert_eq!(table.load_root(Some(vec![0u8; PAGE_SIZE])), Ok(()));
    assert!(table.scan().is_empty());
}

#[test]
fn pager_serves_pages_and_counts_them() {
    let mut pager = Pager::new(2 * PAGE_SIZE as u64).unwrap();
    assert_eq!(pager.page_count(), 2);
    assert_eq!(pager.page_read_offset(1), Some(PAGE_SIZE as u64));
    assert_eq!(pager.get_page(1, None), Err(DbError::IncompletePage));
    assert_eq!(pager.get_page(1, Some(vec![7u8; PAGE_SIZE])), Ok(()));
    assert_eq!(pager.page_read_offset(1), None);
    assert_eq!(pager.page(1)[0], 7);
    // a page beyond the file starts zero-filled and raises the count
    assert_eq!(pager.page_read_offset(4), None);
    assert_eq!(pager.get_page(4, None), Ok(()));
    assert!(pager.page(4).iter().all(|&b| b == 0));
    assert_eq!(pager.page_count(), 5);
    pager.page_mut(4)[9] = 3;
    let w = pager.flush(4).unwrap();
    assert_eq!(w.offset, 4 * PAGE_SIZE as u64);
    assert_eq!(w.bytes[9], 3);
    assert!(pager.flush(0).is_none());
    assert_eq!(pager.get_page(TABLE_MAX_PAGES, None), Err(DbError::PageOutOfBounds));
}

#[test]
fn cursor_walks_every_cell_once() {
    let mut table = open(&[]);
    let start = Cursor::table_start(&table);
    assert!(start.end_of_table);
    table.insert(&row(1, "a", "a@x")).unwrap();
    table.insert(&row(2, "b", "b@x")).unwrap();
    let end = Cursor::table_end(&table);
    assert_eq!(end.cell_num, 2);
    assert!(end.end_of_table);
    let mut cursor = Cursor::table_start(&table);
    assert_eq!(cursor.cell_num, 0);
    assert!(!cursor.end_of_table);
    assert_eq!(pagedb::deserialize_row(&cursor.value(&table)).id, 1);
    cursor.advance(&table);
    assert!(!cursor.end_of_table);
    assert_eq!(pagedb::deserialize_row(&cursor.value(&table)).username, "b");
    cursor.advance(&table);
    assert!(cursor.end_of_table);
}

#[test]
fn leaf_node_insert_appends_under_given_key() {
    let mut table = open(&[]);
    let cursor = Cursor::table_end(&table);
    leaf_node_insert(&mut table, &cursor, 77, &row(1, "k", "k@x"));
    assert_eq!(table.keys(), vec![77]);
    assert_eq!(table.scan(), vec![row(1, "k", "k@x")]);
}
