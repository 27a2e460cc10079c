//! Statements: recognising `select` and `insert <id> <username> <email>`,
//! the meta commands, and running a statement against a table.
use vstd::prelude::*;
use vstd::string::StrSliceExecFns;
use vstd::utf8::encode_utf8;
use crate::layout::{COLUMN_EMAIL_SIZE, COLUMN_USERNAME_SIZE, LEAF_NODE_MAX_CELLS};
use crate::leaf::{leaf_append, num_cells_of, rows_of};
use crate::row::{Row, RowView};
use crate::table::Table;

verus! {

#[derive(Debug, Clone, Copy, PartialEq, Eq, Structural)]
pub enum StatementType {
    Insert,
    Select,
}

/// A statement ready to run; an insert carries its row.
#[derive(Debug)]
pub struct Statement {
    pub statement_type: StatementType,
    pub row_to_insert: Option<Row>,
}

pub enum PrepareResult {
    Success(Statement),
    UnrecognizedStatement,
    SyntaxError,
    StringTooLong,
    NegativeId,
}

/// What running a statement gave: an insert done, the rows of a select, or
/// an insert refused because the table is full.
pub enum ExecuteResult {
    Success,
    Rows(Vec<Row>),
    TableFull,
}

#[derive(Debug, Clone, Copy, PartialEq, Eq, Structural)]
pub enum MetaCommandResult {
    Exit,
    PrintConstants,
    PrintBtree,
    UnrecognizedCommand,
}

/// What a line prepares to, as mathematical values.
pub enum Prepared {
    Select,
    Insert(RowView),
    UnrecognizedStatement,
    SyntaxError,
    StringTooLong,
    NegativeId,
}

impl Statement {
    /// An insert carries a row and a select carries none.
    pub open spec fn wf(&self) -> bool {
        self.statement_type is Insert <==> self.row_to_insert is Some
    }
}

impl PrepareResult {
    pub open spec fn view(&self) -> Prepared {
        match self {
            PrepareResult::Success(st) => match st.row_to_insert {
                Some(row) => Prepared::Insert(row@),
                None => Prepared::Select,
            },
            PrepareResult::UnrecognizedStatement => Prepared::UnrecognizedStatement,
            PrepareResult::SyntaxError => Prepared::SyntaxError,
            PrepareResult::StringTooLong => Prepared::StringTooLong,
            PrepareResult::NegativeId => Prepared::NegativeId,
        }
    }
}

/// `s` begins with `prefix`.
pub open spec fn has_prefix(s: Seq<char>, prefix: Seq<char>) -> bool {
    prefix.len() <= s.len() && s.subrange(0, prefix.len() as int) == prefix
}

pub open spec fn is_digit(c: char) -> bool {
    '0' <= c <= '9'
}

/// The number that a string of decimal digits spells.
pub open spec fn decimal_value(ds: Seq<char>) -> nat
    decreases ds.len(),
{
    if ds.len() == 0 {
        0
    } else {
        decimal_value(ds.drop_last()) * 10 + (ds.last() as nat - '0' as nat) as nat
    }
}

/// The digits of a number: the text with one leading `+` taken off.
pub open spec fn number_digits(s: Seq<char>) -> Seq<char> {
    if s.len() > 0 && s[0] == '+' {
        s.drop_first()
    } else {
        s
    }
}

/// Reading text as a `u32`: an optional `+`, then one or more decimal
/// digits, whose value must fit.
pub open spec fn parse_u32(s: Seq<char>) -> Option<u32> {
    let ds = number_digits(s);
    if ds.len() > 0 && (forall|i: int| 0 <= i < ds.len() ==> is_digit(#[trigger] ds[i]))
        && decimal_value(ds) <= u32::MAX {
        Some(decimal_value(ds) as u32)
    } else {
        None
    }
}

/// The words of a text, split at whitespace, in order.
pub uninterp spec fn whitespace_words(s: Seq<char>) -> Seq<Seq<char>>;

/// What the words of an insert statement prepare to.
pub open spec fn prepared_insert(words: Seq<Seq<char>>) -> Prepared {
    if words.len() != 4 {
        Prepared::UnrecognizedStatement
    } else {
        match parse_u32(words[1]) {
            None => Prepared::SyntaxError,
            Some(id) => if encode_utf8(words[2]).len() > COLUMN_USERNAME_SIZE || encode_utf8(
                words[3],
            ).len() > COLUMN_EMAIL_SIZE {
                Prepared::StringTooLong
            } else {
                Prepared::Insert(RowView { id, username: words[2], email: words[3] })
            },
        }
    }
}

/// What a line prepares to.
pub open spec fn prepared(input: Seq<char>) -> Prepared {
    if has_prefix(input, "select"@) {
        Prepared::Select
    } else if has_prefix(input, "insert"@) {
        prepared_insert(whitespace_words(input))
    } else {
        Prepared::UnrecognizedStatement
    }
}

/// What a meta command line asks for.
pub open spec fn meta_command(input: Seq<char>) -> MetaCommandResult {
    if input == ".exit"@ {
        MetaCommandResult::Exit
    } else if input == ".constants"@ {
        MetaCommandResult::PrintConstants
    } else if input == ".btree"@ {
        MetaCommandResult::PrintBtree
    } else {
        MetaCommandResult::UnrecognizedCommand
    }
}

/// Relies on `str::split_whitespace`: the words of the text in order; the
/// result depends on the text alone.
#[verifier::external_body]
fn split_words(s: &str) -> (r: Vec<String>)
    ensures
        r@.len() == whitespace_words(s@).len(),
        forall|i: int| 0 <= i < r@.len() ==> #[trigger] r@[i]@ == whitespace_words(s@)[i],
{
    let mut words = Vec::new();
    for w in s.split_whitespace() {
        words.push(w.to_string());
    }
    words
}

/// Whether `s` begins with `prefix`.
fn starts_with_text(s: &str, prefix: &str) -> (r: bool)
    ensures
        r == has_prefix(s@, prefix@),
{
    let n = s.unicode_len();
    let m = prefix.unicode_len();
    if m > n {
        return false;
    }
    let mut i: usize = 0;
    while i < m
        invariant
            i <= m <= n,
            n == s@.len(),
            m == prefix@.len(),
            s@.subrange(0, i as int) == prefix@.subrange(0, i as int),
        decreases m - i,
    {
        if s.get_char(i) != prefix.get_char(i) {
            assert(s@.subrange(0, m as int)[i as int] != prefix@[i as int]);
            return false;
        }
        i += 1;
        assert(s@.subrange(0, i as int) =~= prefix@.subrange(0, i as int));
    }
    assert(prefix@.subrange(0, m as int) =~= prefix@);
    true
}

/// Whether the two texts are the same.
fn same_text(a: &str, b: &str) -> (r: bool)
    ensures
        r == (a@ == b@),
{
    let n = a.unicode_len();
    if n != b.unicode_len() {
        return false;
    }
    let r = starts_with_text(a, b);
    assert(a@ =~= a@.subrange(0, n as int));
    r
}

proof fn lemma_decimal_value_grows(ds: Seq<char>, k: int)
    requires
        0 <= k <= ds.len(),
    ensures
        decimal_value(ds.subrange(0, k)) <= decimal_value(ds),
    decreases ds.len(),
{
    if k < ds.len() {
        let init = ds.drop_last();
        assert(init.subrange(0, k) =~= ds.subrange(0, k));
        lemma_decimal_value_grows(init, k);
    } else {
        assert(ds.subrange(0, k) =~= ds);
    }
}

/// Reads text as a `u32`, as `str::parse` does.
pub fn parse_id(s: &str) -> (r: Option<u32>)
    ensures
        r == parse_u32(s@),
{
    let n = s.unicode_len();
    let start: usize = if n > 0 && s.get_char(0) == '+' {
        1
    } else {
        0
    };
    let ghost ds = number_digits(s@);
    assert(ds =~= s@.subrange(start as int, n as int));
    if start == n {
        return None;
    }
    let mut value: u64 = 0;
    let mut i: usize = start;
    while i < n
        invariant
            start <= i <= n,
            n == s@.len(),
            ds == number_digits(s@),
            ds == s@.subrange(start as int, n as int),
            forall|k: int| 0 <= k < i - start ==> is_digit(#[trigger] ds[k]),
            value == decimal_value(ds.subrange(0, i - start)),
            value <= u32::MAX,
        decreases n - i,
    {
        let c = s.get_char(i);
        assert(c == ds[i - start]);
        if !('0' <= c && c <= '9') {
            assert(!is_digit(ds[i - start]));
            assert(!(forall|k: int| 0 <= k < ds.len() ==> is_digit(#[trigger] ds[k])));
            return None;
        }
        let ghost prefix = ds.subrange(0, i - start + 1);
        assert(prefix.drop_last() =~= ds.subrange(0, i - start));
        assert(prefix.last() == c);
        let d: u64 = c as u64 - '0' as u64;
        assert(decimal_value(prefix) == value * 10 + d);
        value = value * 10 + d;
        i += 1;
        if value > u32::MAX as u64 {
            proof {
                lemma_decimal_value_grows(ds, i - start);
            }
            return None;
        }
    }
    assert(ds.subrange(0, n - start) =~= ds);
    Some(value as u32)
}

/// Prepares an insert from the words of its line.
pub fn prepare_insert(words: &Vec<String>) -> (r: PrepareResult)
    ensures
        r@ == prepared_insert(words@.map_values(|w: String| w@)),
        r matches PrepareResult::Success(st) ==> st.wf(),
{
    let ghost views = words@.map_values(|w: String| w@);
    if words.len() != 4 {
        return PrepareResult::UnrecognizedStatement;
    }
    assert(views.len() == 4 && views[1] == words@[1]@);
    let id = match parse_id(words[1].as_str()) {
        Some(id) => id,
        None => {
            return PrepareResult::SyntaxError;
        },
    };
    if words[2].as_str().as_bytes().len() > COLUMN_USERNAME_SIZE
        || words[3].as_str().as_bytes().len() > COLUMN_EMAIL_SIZE {
        return PrepareResult::StringTooLong;
    }
    assert(views[1] == words@[1]@ && views[2] == words@[2]@ && views[3] == words@[3]@);
    let row = Row { id, username: words[2].clone(), email: words[3].clone() };

    PrepareResult::Success(
        Statement { statement_type: StatementType::Insert, row_to_insert: Some(row) },
    )
}

/// Prepares a statement from a line: `select ...`, or
/// `insert <id> <username> <email>`.
pub fn prepare_statement(input: &str) -> (r: PrepareResult)
    ensures
        r@ == prepared(input@),
        r matches PrepareResult::Success(st) ==> st.wf(),
{
    if starts_with_text(input, "select") {
        PrepareResult::Success(
            Statement { statement_type: StatementType::Select, row_to_insert: None },
        )
    } else if starts_with_text(input, "insert") {
        let words = split_words(input);
        let r = prepare_insert(&words);
        assert(words@.map_values(|w: String| w@) =~= whitespace_words(input@));
        r
    } else {
        PrepareResult::UnrecognizedStatement
    }
}

/// Recognises a meta command line.
pub fn do_meta_command(input: &str) -> (r: MetaCommandResult)
    ensures
        r == meta_command(input@),
{
    if same_text(input, ".exit") {
        MetaCommandResult::Exit
    } else if same_text(input, ".constants") {
        MetaCommandResult::PrintConstants
    } else if same_text(input, ".btree") {
        MetaCommandResult::PrintBtree
    } else {
        MetaCommandResult::UnrecognizedCommand
    }
}

/// Runs a statement: an insert appends its row, or reports a full table
/// without a change; a select gives every row in cell order.
pub fn execute_statement(statement: &Statement, table: &mut Table) -> (r: ExecuteResult)
    requires
        old(table).ready(),
        statement.wf(),
    ensures
        final(table).ready(),
        final(table).pager.file_pages() == old(table).pager.file_pages(),
        statement.statement_type is Select ==> *final(table) == *old(table) && (
        r matches ExecuteResult::Rows(rows) && rows@.len() == rows_of(old(table).root_page()).len()
            && forall|i: int|
            0 <= i < rows@.len() ==> #[trigger] rows@[i]@ == rows_of(old(table).root_page())[i]),
        statement.statement_type is Insert ==> if num_cells_of(old(table).root_page())
            >= LEAF_NODE_MAX_CELLS {
            r is TableFull && *final(table) == *old(table)
        } else {
            r is Success && final(table).root_page() == leaf_append(
                old(table).root_page(),
                statement.row_to_insert->Some_0.id,
                statement.row_to_insert->Some_0@,
            )
        },
{
    match statement.statement_type {
        StatementType::Insert => {
            let row = statement.row_to_insert.as_ref().unwrap();
            match table.insert(row) {
                Ok(()) => ExecuteResult::Success,
                Err(_) => ExecuteResult::TableFull,
            }
        },
        StatementType::Select => ExecuteResult::Rows(table.scan()),
    }
}

} // verus!
