use pagedb::{
    db_close, db_open, do_meta_command, execute_statement, prepare_statement, ExecuteResult,
    MetaCommandResult, PrepareResult, Row, Statement, StatementType, Table, PAGE_SIZE,
};

fn open(file: &[u8]) -> Table {
    let mut table = db_open(file.len() as u64).expect("whole pages");
    if let Some(offset) = table.root_read_offset() {
        let start = offset as usize;
        table.load_root(Some(file[start..start + PAGE_SIZE].to_vec())).expect("valid root");
    }
    table
}

fn save(table: &Table, file: &mut Vec<u8>) {
    for w in db_close(table) {
        let start = w.offset as usize;
        if file.len() < start + w.bytes.len() {
            file.resize(start + w.bytes.len(), 0);
        }
        file[start..start + w.bytes.len()].copy_from_slice(&w.bytes);
    }
}

fn prepared(line: &str) -> Statement {
    match prepare_statement(line) {
        PrepareResult::Success(st) => st,
        _ => panic!("not a statement: {}", line),
    }
}

/// Runs one line against the table, as the command loop does.
fn run(table: &mut Table, line: &str) -> Option<Vec<Row>> {
    match execute_statement(&prepared(line), table) {
        ExecuteResult::Success => None,
        ExecuteResult::Rows(rows) => Some(rows),
        ExecuteResult::TableFull => panic!("table full"),
    }
}

fn row(id: u32, username: &str, email: &str) -> Row {
    Row { id, username: username.to_string(), email: email.to_string() }
}

#[test]
fn test_insert_and_retrieve_row() {
    let mut table = open(&[]);
    assert_eq!(run(&mut table, "insert 1 user1 person1@example.com"), None);
    assert_eq!(run(&mut table, "select"), Some(vec![row(1, "user1", "person1@example.com")]));
    assert_eq!(do_meta_command(".exit"), MetaCommandResult::Exit);
}

#[test]
fn test_table_full_error() {
    let mut table = open(&[]);
    let mut full = false;
    for i in 1..=1401u32 {
        let line = format!("insert {} user{} person{}@example.com", i, i, i);
        if let ExecuteResult::TableFull = execute_statement(&prepared(&line), &mut table) {
            full = true;
        }
    }
    assert!(full);
}

#[test]
fn test_max_length_strings() {
    let username = "a".repeat(32);
    let email = "a".repeat(255);
    let mut table = open(&[]);
    assert_eq!(run(&mut table, &format!("insert 1 {} {}", username, email)), None);
    let rows = run(&mut table, "select").unwrap();
    assert_eq!(rows[0].username, username);
    assert_eq!(rows[0].email, email);
}

#[test]
fn test_string_too_long() {
    let long_username = "a".repeat(33);
    assert!(matches!(
        prepare_statement(&format!("insert 1 {} test@example.com", long_username)),
        PrepareResult::StringTooLong
    ));
    let long_email = "a".repeat(256);
    assert!(matches!(
        prepare_statement(&format!("insert 1 user {}", long_email)),
        PrepareResult::StringTooLong
    ));
}

#[test]
fn test_negative_id() {
    assert!(matches!(
        prepare_statement("insert -1 user test@example.com"),
        PrepareResult::SyntaxError
    ));
}

#[test]
fn test_persistence_single_session() {
    let mut file = Vec::new();
    let mut table = open(&file);
    run(&mut table, "insert 1 alice alice@example.com");
    run(&mut table, "insert 2 bob bob@example.com");
    save(&table, &mut file);

    let mut table = open(&file);
    assert_eq!(
        run(&mut table, "select"),
        Some(vec![row(1, "alice", "alice@example.com"), row(2, "bob", "bob@example.com")])
    );
}

#[test]
fn test_persistence_multiple_sessions() {
    let mut file = Vec::new();
    let mut table = open(&file);
    run(&mut table, "insert 1 user1 user1@example.com");
    run(&mut table, "insert 2 user2 user2@example.com");
    save(&table, &mut file);

    let mut table = open(&file);
    run(&mut table, "insert 3 user3 user3@example.com");
    save(&table, &mut file);

    let mut table = open(&file);
    assert_eq!(
        run(&mut table, "select"),
        Some(vec![
            row(1, "user1", "user1@example.com"),
            row(2, "user2", "user2@example.com"),
            row(3, "user3", "user3@example.com"),
        ])
    );
}

#[test]
fn select_prefix_is_enough() {
    let st = prepared("selectall");
    assert_eq!(st.statement_type, StatementType::Select);
    assert!(st.row_to_insert.is_none());
}

#[test]
fn insert_is_split_at_any_whitespace() {
    let st = prepared("insert\t42   bob \n bob@x.org");
    assert_eq!(st.statement_type, StatementType::Insert);
    assert_eq!(st.row_to_insert, Some(row(42, "bob", "bob@x.org")));
}

#[test]
fn insert_id_takes_plus_sign_and_full_u32_range() {
    assert_eq!(prepared("insert +7 a b").row_to_insert.unwrap().id, 7);
    assert_eq!(prepared("insert 4294967295 a b").row_to_insert.unwrap().id, u32::MAX);
    assert_eq!(prepared("insert 007 a b").row_to_insert.unwrap().id, 7);
}

#[test]
fn insert_id_errors() {
    for line in ["insert 4294967296 a b", "insert + a b", "insert 1x a b", "insert ++1 a b"] {
        assert!(matches!(prepare_statement(line), PrepareResult::SyntaxError), "{}", line);
    }
}

#[test]
fn insert_needs_exactly_three_arguments() {
    assert!(matches!(prepare_statement("insert 1 a"), PrepareResult::UnrecognizedStatement));
    assert!(matches!(prepare_statement("insert 1 a b c"), PrepareResult::UnrecognizedStatement));
}

#[test]
fn unknown_keyword_is_unrecognized() {
    assert!(matches!(prepare_statement("update 1"), PrepareResult::UnrecognizedStatement));
    assert!(matches!(prepare_statement(""), PrepareResult::UnrecognizedStatement));
    assert!(matches!(prepare_statement(" select"), PrepareResult::UnrecognizedStatement));
}

#[test]
fn username_length_counts_bytes() {
    // sixteen two-byte characters fit; seventeen do not
    assert!(matches!(prepare_statement(&format!("insert 1 {} e", "é".repeat(16))), PrepareResult::Success(_)));
    assert!(matches!(
        prepare_statement(&format!("insert 1 {} e", "é".repeat(17))),
        PrepareResult::StringTooLong
    ));
}

#[test]
fn meta_commands() {
    assert_eq!(do_meta_command(".exit"), MetaCommandResult::Exit);
    assert_eq!(do_meta_command(".constants"), MetaCommandResult::PrintConstants);
    assert_eq!(do_meta_command(".btree"), MetaCommandResult::PrintBtree);
    assert_eq!(do_meta_command(".exi"), MetaCommandResult::UnrecognizedCommand);
    assert_eq!(do_meta_command(".exit "), MetaCommandResult::UnrecognizedCommand);
}

#[test]
fn select_leaves_table_unchanged_and_full_insert_reports() {
    let mut table = open(&[]);
    for i in 0..13 {
        run(&mut table, &format!("insert {} u e", i));
    }
    assert!(matches!(execute_statement(&prepared("insert 100 u e"), &mut table), ExecuteResult::TableFull));
    assert_eq!(run(&mut table, "select").unwrap().len(), 13);
    assert_eq!(table.keys(), (0..13).collect::<Vec<u32>>());
}
