//! SQL-specific source conventions: `CREATE TABLE` DDL parsing and column
//! reference detection in SQL statements.
//!
//! This isolates language-specific heuristics from the language-neutral
//! query logic. Detection is line-based: a column reference is found when it
//! shares a line with the SQL keyword that gives it context, which matches
//! how SQL typically appears in `.sql` files and string literals.

use vstd::prelude::*;

use crate::lines::{
    begins, char_lists, copy_chars, drop_bytes, ends, ends_with, find_word, from_byte, ident_char, is_ident_char, lines,
    lines_of, opt_text, piece_between, second_piece, stands_as_word, starts_with, strip, strip_end, stripped,
    stripped_end, trim, trim_end, trim_start, trimmed, trimmed_end, trimmed_start, word_at, word_from,
};
use crate::text::{
    byte_offset, chars_of, find, find_from, has, is_space, lowercase, occurs_at, same, space, split_words, stands_at,
    string_of, upper_chars, uppercase, utf8_length, words,
};

verus! {

/// A column definition parsed from a `CREATE TABLE` statement.
#[derive(Debug)]
pub struct SqlColumnDef {
    pub column_name: String,
    pub sql_type: String,
    /// `COMMENT '...'` text, if present.
    pub comment: Option<String>,
}

/// A table definition parsed from a `CREATE TABLE` statement.
#[derive(Debug)]
pub struct SqlTableDef {
    pub table_name: String,
    pub columns: Vec<SqlColumnDef>,
}

/// How a SQL statement accesses a column.
#[derive(Debug, PartialEq, Eq, Structural)]
pub enum SqlAccess {
    Read,
    Write,
}

/// How a SQL statement accesses a table.
#[derive(Debug, PartialEq, Eq, Clone, Copy, Structural)]
pub enum TableAccess {
    Create,
    Read,
    Update,
    Delete,
}

/// A column definition as mathematics.
#[verifier::ext_equal]
pub struct ColumnView {
    pub column_name: Seq<char>,
    pub sql_type: Seq<char>,
    pub comment: Option<Seq<char>>,
}

/// A table definition as mathematics.
#[verifier::ext_equal]
pub struct TableDefView {
    pub table_name: Seq<char>,
    pub columns: Seq<ColumnView>,
}

impl View for SqlColumnDef {
    type V = ColumnView;

    open spec fn view(&self) -> ColumnView {
        ColumnView { column_name: self.column_name@, sql_type: self.sql_type@, comment: opt_text(self.comment) }
    }
}

impl View for SqlTableDef {
    type V = TableDefView;

    open spec fn view(&self) -> TableDefView {
        TableDefView {
            table_name: self.table_name@,
            columns: self.columns@.map_values(|c: SqlColumnDef| c@),
        }
    }
}

impl TableAccess {
    pub open spec fn letter_spec(self) -> char {
        match self {
            TableAccess::Create => 'C',
            TableAccess::Read => 'R',
            TableAccess::Update => 'U',
            TableAccess::Delete => 'D',
        }
    }

    pub fn letter(self) -> (r: char)
        ensures
            r == self.letter_spec(),
    {
        match self {
            TableAccess::Create => 'C',
            TableAccess::Read => 'R',
            TableAccess::Update => 'U',
            TableAccess::Delete => 'D',
        }
    }
}

/// Words that open a constraint, not a column.
pub open spec fn is_constraint(word: Seq<char>) -> bool {
    ||| word == "PRIMARY"@
    ||| word == "FOREIGN"@
    ||| word == "UNIQUE"@
    ||| word == "CONSTRAINT"@
    ||| word == "KEY"@
    ||| word == "INDEX"@
    ||| word == "CHECK"@
}

fn names_constraint(word: &str) -> (r: bool)
    ensures
        r == is_constraint(word@),
{
    same(word, "PRIMARY") || same(word, "FOREIGN") || same(word, "UNIQUE") || same(word, "CONSTRAINT") || same(
        word,
        "KEY",
    ) || same(word, "INDEX") || same(word, "CHECK")
}

pub fn is_sql_file(path: &str) -> (r: bool)
    ensures
        r == ends(lowercase(path@), ".sql"@),
{
    ends_with(chars_of(path.to_lowercase().as_str()).as_slice(), ".sql")
}

/// An upper-case line that holds one of the tell-tale words.
pub open spec fn holds_sql(upper: Seq<char>) -> bool {
    ||| has(upper, "SELECT "@)
    ||| has(upper, "INSERT INTO "@)
    ||| has(upper, "UPDATE "@)
    ||| has(upper, "DELETE FROM "@)
    ||| has(upper, " FROM "@)
    ||| has(upper, "WHERE "@)
    ||| has(upper, " JOIN "@)
}

fn upper_holds_sql(upper: &[char]) -> (r: bool)
    ensures
        r == holds_sql(upper@),
{
    find_from(upper, "SELECT ", 0).is_some() || find_from(upper, "INSERT INTO ", 0).is_some() || find_from(
        upper,
        "UPDATE ",
        0,
    ).is_some() || find_from(upper, "DELETE FROM ", 0).is_some() || find_from(upper, " FROM ", 0).is_some()
        || find_from(upper, "WHERE ", 0).is_some() || find_from(upper, " JOIN ", 0).is_some()
}

/// True if the line plausibly contains a SQL statement (used to find SQL
/// embedded in string literals of other languages).
pub fn looks_like_sql(line: &str) -> (r: bool)
    ensures
        r == holds_sql(uppercase(line@)),
{
    upper_holds_sql(chars_of(line.to_uppercase().as_str()).as_slice())
}

/// The quoted text behind a keyword.
pub open spec fn quoted_after(line: Seq<char>, keyword: Seq<char>) -> Option<Seq<char>> {
    match find(uppercase(line), keyword, 0) {
        None => None,
        Some(i) => second_piece(drop_bytes(line, utf8_length(uppercase(line).take(i))), '\''),
    }
}

/// A name made of identifier characters and dollars.
pub open spec fn is_column_name(name: Seq<char>) -> bool {
    forall|i: int| 0 <= i < name.len() ==> ident_char(#[trigger] name[i]) || name[i] == '$'
}

/// The column that a line of a `CREATE TABLE` body defines.
pub open spec fn column_of(line: Seq<char>) -> Option<ColumnView> {
    let tokens = words(line);
    let name = stripped(tokens[0], "`\","@);
    if tokens.len() == 0 || name.len() == 0 || is_constraint(uppercase(name)) || !is_column_name(name) || tokens.len()
        < 2 {
        None
    } else {
        Some(
            ColumnView {
                column_name: name,
                sql_type: stripped_end(tokens[1], ","@),
                comment: quoted_after(line, "COMMENT"@),
            },
        )
    }
}

/// The first position from `i` on that ends a table's name: white space, an
/// opening parenthesis or the end of the statement.
pub open spec fn name_end(s: Seq<char>, i: int) -> int
    decreases s.len() - i,
{
    if 0 <= i < s.len() && !is_space(s[i]) && s[i] != '(' && s[i] != ';' {
        name_end(s, i + 1)
    } else {
        i
    }
}

/// The table that a text starts to define, and what follows its name.
pub open spec fn table_named(text: Seq<char>) -> Option<(Seq<char>, Seq<char>)> {
    if !begins(uppercase(text), "CREATE TABLE"@) {
        None
    } else {
        let rest = trimmed_start(drop_bytes(text, 12));
        let rest = if begins(uppercase(rest), "IF NOT EXISTS"@) {
            trimmed_start(drop_bytes(rest, 13))
        } else {
            rest
        };
        let name = stripped(rest.take(name_end(rest, 0)), "`\""@);
        if name.len() == 0 {
            None
        } else {
            Some((name, rest.skip(name_end(rest, 0))))
        }
    }
}

/// The first semicolon from `i` on, or the first opening parenthesis if that
/// is looked for too. Quoted text and a comment do not count.
pub open spec fn mark_from(s: Seq<char>, i: int, opening: bool, quoted: bool) -> Option<int>
    decreases s.len() - i,
{
    if i < 0 || i >= s.len() {
        None
    } else if s[i] == '\'' {
        mark_from(s, i + 1, opening, !quoted)
    } else if quoted {
        mark_from(s, i + 1, opening, true)
    } else if occurs_at(s, "--"@, i) {
        None
    } else if s[i] == ';' || opening && s[i] == '(' {
        Some(i)
    } else {
        mark_from(s, i + 1, opening, false)
    }
}

/// What follows the statement that a text is in.
pub open spec fn next_statement(s: Seq<char>) -> Seq<char> {
    match mark_from(s, 0, false, false) {
        Some(k) => trimmed_start(s.skip(k + 1)),
        None => Seq::empty(),
    }
}

/// The column definitions in a part of a table's body: the texts between
/// commas outside parentheses, the open parentheses at its end, and the
/// position of the parenthesis that closes the table, if it does.
#[verifier::ext_equal]
pub struct BodyPart {
    pub pieces: Seq<Seq<char>>,
    pub depth: usize,
    pub end: Option<int>,
}

pub open spec fn piece(s: Seq<char>, from: Option<int>, to: int) -> Seq<Seq<char>> {
    match from {
        Some(a) => seq![s.subrange(a, to)],
        None => Seq::empty(),
    }
}

pub open spec fn deeper(depth: usize) -> usize {
    if depth < usize::MAX {
        (depth + 1) as usize
    } else {
        depth
    }
}

/// A table's body from `i` on. A definition starts at `from`, or else the text
/// belongs to one that started on an earlier line. Commas and parentheses in
/// quoted text do not count, and a comment ends the line.
pub open spec fn body_from(s: Seq<char>, i: int, from: Option<int>, depth: usize, quoted: bool) -> BodyPart
    decreases s.len() - i,
{
    if i < 0 || i >= s.len() {
        BodyPart { pieces: piece(s, from, s.len() as int), depth, end: None }
    } else if s[i] == '\'' {
        body_from(s, i + 1, from, depth, !quoted)
    } else if quoted {
        body_from(s, i + 1, from, depth, true)
    } else if occurs_at(s, "--"@, i) {
        BodyPart { pieces: piece(s, from, i), depth, end: None }
    } else if s[i] == '(' {
        body_from(s, i + 1, from, deeper(depth), false)
    } else if s[i] == ')' && depth == 0 {
        BodyPart { pieces: piece(s, from, i), depth, end: Some(i) }
    } else if s[i] == ')' {
        body_from(s, i + 1, from, (depth - 1) as usize, false)
    } else if s[i] == ',' && depth == 0 {
        let rest = body_from(s, i + 1, Some(i + 1), depth, false);
        BodyPart { pieces: piece(s, from, i) + rest.pieces, ..rest }
    } else {
        body_from(s, i + 1, from, depth, false)
    }
}

/// The columns among definitions.
pub open spec fn columns_of(pieces: Seq<Seq<char>>) -> Seq<ColumnView>
    decreases pieces.len(),
{
    if pieces.len() == 0 {
        Seq::empty()
    } else {
        let before = columns_of(pieces.drop_last());
        match column_of(trimmed(pieces.last())) {
            Some(c) => before.push(c),
            None => before,
        }
    }
}

/// A table that is being read: whether its body has begun, and the parentheses
/// open inside it.
#[verifier::ext_equal]
pub struct OpenTable {
    pub table: TableDefView,
    pub begun: bool,
    pub depth: usize,
}

/// The tables completed so far and the one being read.
#[verifier::ext_equal]
pub struct DdlState {
    pub tables: Seq<TableDefView>,
    pub current: Option<OpenTable>,
}

/// What the body of a table from `i` on does, and the text behind the table's
/// statement if it ends there. A text that ends in `);` ends it in any case.
pub open spec fn body_step(
    tables: Seq<TableDefView>,
    open: OpenTable,
    text: Seq<char>,
    i: int,
) -> (DdlState, Option<Seq<char>>) {
    let part = body_from(
        text,
        i,
        if open.depth == 0 {
            Some(i)
        } else {
            None
        },
        open.depth,
        false,
    );
    let table = TableDefView {
        table_name: open.table.table_name,
        columns: open.table.columns + columns_of(part.pieces),
    };
    let closed = DdlState { tables: tables.push(table), current: None };
    match part.end {
        Some(e) => (closed, Some(next_statement(text.skip(e + 1)))),
        None => if ends(text, ");"@) {
            (closed, None)
        } else {
            (DdlState { tables, current: Some(OpenTable { table, begun: true, depth: part.depth }) }, None)
        },
    }
}

/// What the text behind a table's name does: its body begins at a parenthesis.
pub open spec fn head_step(tables: Seq<TableDefView>, table: TableDefView, text: Seq<char>) -> (
    DdlState,
    Option<Seq<char>>,
) {
    match mark_from(text, 0, true, false) {
        None => (DdlState { tables, current: Some(OpenTable { table, begun: false, depth: 0 }) }, None),
        Some(k) => if text[k] == ';' {
            (DdlState { tables: tables.push(table), current: None }, Some(trimmed_start(text.skip(k + 1))))
        } else {
            body_step(tables, OpenTable { table, begun: true, depth: 0 }, text, k + 1)
        },
    }
}

/// What the first statement of a text does, and the text behind it.
pub open spec fn statement_step(state: DdlState, text: Seq<char>) -> (DdlState, Option<Seq<char>>) {
    match state.current {
        Some(open) => if open.begun {
            body_step(state.tables, open, text, 0)
        } else {
            head_step(state.tables, open.table, text)
        },
        None => match table_named(text) {
            None => (state, Some(next_statement(text))),
            Some((table_name, tail)) => head_step(
                state.tables,
                TableDefView { table_name, columns: Seq::empty() },
                tail,
            ),
        },
    }
}

/// What the statements of a text do, one after the other.
pub open spec fn ddl_step(state: DdlState, text: Seq<char>) -> DdlState
    decreases text.len(),
{
    let (next, rest) = statement_step(state, text);
    match rest {
        Some(more) => if more.len() < text.len() {
            ddl_step(next, more)
        } else {
            next
        },
        None => next,
    }
}

/// The state after a number of lines.
pub open spec fn ddl_after(lines: Seq<Seq<char>>) -> DdlState
    decreases lines.len(),
{
    if lines.len() == 0 {
        DdlState { tables: Seq::empty(), current: None }
    } else {
        ddl_step(ddl_after(lines.drop_last()), trimmed(lines.last()))
    }
}

/// All tables that a SQL source defines; one that is never closed counts too.
pub open spec fn tables_in(source: Seq<char>) -> Seq<TableDefView> {
    let state = ddl_after(lines(source));
    match state.current {
        Some(open) => state.tables.push(open.table),
        None => state.tables,
    }
}

fn quoted_after_keyword(line: &[char], keyword: &str) -> (r: Option<String>)
    ensures
        opt_text(r) == quoted_after(line@, keyword@),
{
    let upper = upper_chars(line);
    match find_from(upper.as_slice(), keyword, 0) {
        None => None,
        Some(i) => {
            let n: u128 = byte_offset(upper.as_slice(), i);
            piece_between(from_byte(line, n), '\'')
        },
    }
}

fn valid_column_name(name: &[char]) -> (r: bool)
    ensures
        r == is_column_name(name@),
{
    let mut i: usize = 0;
    while i < name.len()
        invariant
            i <= name@.len(),
            forall|k: int| 0 <= k < i ==> ident_char(#[trigger] name@[k]) || name@[k] == '$',
        decreases name.len() - i,
    {
        if !is_ident_char(name[i]) && name[i] != '$' {
            return false;
        }
        i = i + 1;
    }
    true
}

/// What parsing a column returns.
pub open spec fn opt_column(c: Option<SqlColumnDef>) -> Option<ColumnView> {
    match c {
        Some(c) => Some(c@),
        None => None,
    }
}

fn parse_column_line(line: &[char]) -> (r: Option<SqlColumnDef>)
    ensures
        opt_column(r) == column_of(line@),
{
    let tokens = split_words(line);
    proof {
        assert(crate::text::texts(tokens@) == words(line@));
        assert(tokens@.len() == words(line@).len());
    }
    if tokens.len() == 0 {
        return None;
    }
    assert(words(line@)[0] == tokens@[0]@);
    let first = chars_of(tokens[0].as_str());
    let name = strip(first.as_slice(), "`\",");
    if name.len() == 0 || names_constraint(string_of(name).to_uppercase().as_str()) || !valid_column_name(name)
        || tokens.len() < 2 {
        return None;
    }
    assert(words(line@)[1] == tokens@[1]@);
    let second = chars_of(tokens[1].as_str());
    Some(
        SqlColumnDef {
            column_name: string_of(name),
            sql_type: string_of(strip_end(second.as_slice(), ",")),
            comment: quoted_after_keyword(line, "COMMENT"),
        },
    )
}

spec fn named_view(r: Option<(String, Vec<char>)>) -> Option<(Seq<char>, Seq<char>)> {
    match r {
        Some((name, tail)) => Some((name@, tail@)),
        None => None,
    }
}

fn parse_table_name(text: &[char]) -> (r: Option<(String, Vec<char>)>)
    ensures
        named_view(r) == table_named(text@),
{
    let upper = upper_chars(text);
    if !starts_with(upper.as_slice(), "CREATE TABLE") {
        return None;
    }
    let rest = trim_start(from_byte(text, 12));
    let upper_rest = upper_chars(rest);
    let rest = if starts_with(upper_rest.as_slice(), "IF NOT EXISTS") {
        trim_start(from_byte(rest, 13))
    } else {
        rest
    };
    let mut end: usize = 0;
    while end < rest.len() && !space(rest[end]) && rest[end] != '(' && rest[end] != ';'
        invariant
            end <= rest@.len(),
            name_end(rest@, 0) == name_end(rest@, end as int),
        decreases rest.len() - end,
    {
        end = end + 1;
    }
    let head = vstd::slice::slice_subrange(rest, 0, end);
    assert(head@ =~= rest@.take(end as int));
    let name = strip(head, "`\"");
    if name.len() == 0 {
        None
    } else {
        let tail = vstd::slice::slice_subrange(rest, end, rest.len());
        assert(tail@ =~= rest@.skip(end as int));
        Some((string_of(name), copy_chars(tail)))
    }
}

fn find_mark(s: &[char], opening: bool) -> (r: Option<usize>)
    ensures
        match r {
            Some(k) => mark_from(s@, 0, opening, false) == Some(k as int) && k < s@.len(),
            None => mark_from(s@, 0, opening, false) is None,
        },
{
    let mut i: usize = 0;
    let mut quoted = false;
    while i < s.len()
        invariant
            i <= s@.len(),
            mark_from(s@, 0, opening, false) == mark_from(s@, i as int, opening, quoted),
        decreases s.len() - i,
    {
        let c = s[i];
        if c == '\'' {
            quoted = !quoted;
        } else if !quoted {
            if stands_at(s, "--", i) {
                return None;
            }
            if c == ';' || opening && c == '(' {
                return Some(i);
            }
        }
        i = i + 1;
    }
    None
}

fn skip_statement(s: &[char]) -> (r: Vec<char>)
    ensures
        r@ == next_statement(s@),
{
    match find_mark(s, false) {
        Some(k) => {
            let n: usize = s.len();
            let rest = vstd::slice::slice_subrange(s, k + 1, n);
            assert(rest@ =~= s@.skip(k + 1));
            copy_chars(trim_start(rest))
        },
        None => Vec::new(),
    }
}

spec fn column_views(v: Seq<SqlColumnDef>) -> Seq<ColumnView> {
    v.map_values(|c: SqlColumnDef| c@)
}

spec fn from_view(from: Option<usize>) -> Option<int> {
    match from {
        Some(a) => Some(a as int),
        None => None,
    }
}

/// Adds the column that a definition from `from` up to `to` makes.
fn add_piece(columns: &mut Vec<SqlColumnDef>, s: &[char], from: Option<usize>, to: usize, Ghost(done): Ghost<Seq<Seq<char>>>)
    requires
        from matches Some(a) ==> a <= to,
        to <= s@.len(),
        column_views(old(columns)@) == columns_of(done),
    ensures
        column_views(final(columns)@) == columns_of(done + piece(s@, from_view(from), to as int)),
{
    let ghost before = column_views(columns@);
    match from {
        Some(a) => {
            let text = vstd::slice::slice_subrange(s, a, to);
            assert(text@ =~= s@.subrange(a as int, to as int));
            let ghost more = done + piece(s@, from_view(from), to as int);
            assert(more.drop_last() =~= done);
            match parse_column_line(trim(text)) {
                Some(c) => {
                    columns.push(c);
                    assert(column_views(columns@) =~= before.push(c@));
                },
                None => {},
            }
        },
        None => {
            assert(done + piece(s@, from_view(from), to as int) =~= done);
        },
    }
}

/// Reads a table's body from `start` on.
fn read_body(s: &[char], start: usize, depth: usize) -> (r: (Vec<SqlColumnDef>, usize, Option<usize>))
    requires
        start <= s@.len(),
    ensures
        ({
            let part = body_from(
                s@,
                start as int,
                if depth == 0 {
                    Some(start as int)
                } else {
                    None
                },
                depth,
                false,
            );
            &&& column_views(r.0@) == columns_of(part.pieces)
            &&& r.1 == part.depth
            &&& from_view(r.2) == part.end
            &&& r.2 matches Some(e) ==> e < s@.len()
        }),
{
    let mut from: Option<usize> = if depth == 0 {
        Some(start)
    } else {
        None
    };
    let ghost part = body_from(s@, start as int, from_view(from), depth, false);
    let ghost mut done: Seq<Seq<char>> = Seq::empty();
    let mut columns: Vec<SqlColumnDef> = Vec::new();
    let mut open: usize = depth;
    let mut quoted = false;
    let mut i: usize = start;
    assert(column_views(columns@) =~= columns_of(done));
    assert(done + part.pieces =~= part.pieces);
    while i < s.len()
        invariant
            i <= s@.len(),
            part == body_from(
                s@,
                start as int,
                if depth == 0 {
                    Some(start as int)
                } else {
                    None
                },
                depth,
                false,
            ),
            from matches Some(a) ==> a <= i,
            column_views(columns@) == columns_of(done),
            ({
                let rest = body_from(s@, i as int, from_view(from), open, quoted);
                &&& part.pieces == done + rest.pieces
                &&& part.depth == rest.depth
                &&& part.end == rest.end
            }),
        decreases s.len() - i,
    {
        let c = s[i];
        if c == '\'' {
            quoted = !quoted;
        } else if !quoted {
            if stands_at(s, "--", i) {
                add_piece(&mut columns, s, from, i, Ghost(done));
                return (columns, open, None);
            }
            if c == '(' {
                if open < usize::MAX {
                    open = open + 1;
                }
            } else if c == ')' {
                if open == 0 {
                    add_piece(&mut columns, s, from, i, Ghost(done));
                    return (columns, open, Some(i));
                }
                open = open - 1;
            } else if c == ',' && open == 0 {
                add_piece(&mut columns, s, from, i, Ghost(done));
                proof {
                    let p = piece(s@, from_view(from), i as int);
                    let rest = body_from(s@, i + 1, Some(i + 1), open, false);
                    assert(done + (p + rest.pieces) =~= (done + p) + rest.pieces);
                    done = done + p;
                }
                from = Some(i + 1);
            }
        }
        i = i + 1;
    }
    add_piece(&mut columns, s, from, s.len(), Ghost(done));
    (columns, open, None)
}

spec fn def_views(v: Seq<SqlTableDef>) -> Seq<TableDefView> {
    v.map_values(|t: SqlTableDef| t@)
}

/// The tables completed so far and the one being read.
struct Reader {
    tables: Vec<SqlTableDef>,
    current: Option<Reading>,
}

struct Reading {
    table: SqlTableDef,
    begun: bool,
    depth: usize,
}

impl View for Reader {
    type V = DdlState;

    closed spec fn view(&self) -> DdlState {
        DdlState {
            tables: def_views(self.tables@),
            current: match self.current {
                Some(x) => Some(OpenTable { table: x.table@, begun: x.begun, depth: x.depth }),
                None => None,
            },
        }
    }
}

spec fn rest_view(r: Option<Vec<char>>) -> Option<Seq<char>> {
    match r {
        Some(v) => Some(v@),
        None => None,
    }
}

impl Reader {
    fn finish_table(&mut self, table: SqlTableDef)
        ensures
            final(self)@ == (DdlState { tables: old(self)@.tables.push(table@), current: None }),
    {
        let ghost before = def_views(self.tables@);
        self.tables.push(table);
        self.current = None;
        assert(def_views(self.tables@) =~= before.push(table@));
    }

    /// Reads a table's body from `i` on.
    fn read_table(&mut self, open: SqlTableDef, depth: usize, text: &[char], i: usize) -> (r: Option<Vec<char>>)
        requires
            i <= text@.len(),
        ensures
            (final(self)@, rest_view(r)) == body_step(
                old(self)@.tables,
                OpenTable { table: open@, begun: true, depth },
                text@,
                i as int,
            ),
    {
        let ghost tables = self@.tables;
        let (more, left, end) = read_body(text, i, depth);
        let mut more = more;
        let ghost old_columns = open.columns@;
        let ghost new_columns = more@;
        let mut table = open;
        table.columns.append(&mut more);
        assert(table.columns@ =~= old_columns + new_columns);
        assert(column_views(table.columns@) =~= column_views(old_columns) + column_views(new_columns));
        match end {
            Some(e) => {
                self.finish_table(table);
                let n: usize = text.len();
                let rest = vstd::slice::slice_subrange(text, e + 1, n);
                assert(rest@ =~= text@.skip(e + 1));
                Some(skip_statement(rest))
            },
            None => {
                if ends_with(text, ");") {
                    self.finish_table(table);
                } else {
                    self.current = Some(Reading { table, begun: true, depth: left });
                }
                None
            },
        }
    }

    /// Reads the text behind a table's name.
    fn read_head(&mut self, table: SqlTableDef, text: &[char]) -> (r: Option<Vec<char>>)
        ensures
            (final(self)@, rest_view(r)) == head_step(old(self)@.tables, table@, text@),
    {
        match find_mark(text, true) {
            None => {
                self.current = Some(Reading { table, begun: false, depth: 0 });
                None
            },
            Some(k) => {
                if text[k] == ';' {
                    self.finish_table(table);
                    let n: usize = text.len();
                    let rest = vstd::slice::slice_subrange(text, k + 1, n);
                    assert(rest@ =~= text@.skip(k + 1));
                    Some(copy_chars(trim_start(rest)))
                } else {
                    self.read_table(table, 0, text, k + 1)
                }
            },
        }
    }

    /// Reads the first statement of a text.
    fn read_statement(&mut self, text: &[char]) -> (r: Option<Vec<char>>)
        ensures
            (final(self)@, rest_view(r)) == statement_step(old(self)@, text@),
    {
        match self.current.take() {
            Some(x) => if x.begun {
                self.read_table(x.table, x.depth, text, 0)
            } else {
                self.read_head(x.table, text)
            },
            None => {
                match parse_table_name(text) {
                    None => Some(skip_statement(text)),
                    Some((table_name, tail)) => {
                        let table = SqlTableDef { table_name, columns: Vec::new() };
                        assert(table@.columns =~= Seq::empty());
                        self.read_head(table, tail.as_slice())
                    },
                }
            },
        }
    }

    /// Reads the statements of a line.
    fn read_line(&mut self, line: &[char])
        ensures
            final(self)@ == ddl_step(old(self)@, line@),
    {
        let mut text: Vec<char> = copy_chars(line);
        loop
            invariant_except_break
                ddl_step(old(self)@, line@) == ddl_step(self@, text@),
            ensures
                self@ == ddl_step(old(self)@, line@),
            decreases text@.len(),
        {
            match self.read_statement(text.as_slice()) {
                Some(more) => {
                    if more.len() >= text.len() {
                        break;
                    }
                    text = more;
                },
                None => {
                    break;
                },
            }
        }
    }
}

/// Parse all `CREATE TABLE` statements in a SQL source.
///
/// A table name or comment is cut out by byte offsets of the upper-case
/// line; where no character starts at such an offset nothing is found.
pub fn parse_create_tables(source: &str) -> (r: Vec<SqlTableDef>)
    ensures
        r@.map_values(|t: SqlTableDef| t@) == tables_in(source@),
{
    let mut reader = Reader { tables: Vec::new(), current: None };
    let all = lines_of(chars_of(source).as_slice());
    let ghost ls = lines(source@);
    let mut i: usize = 0;
    proof {
        assert(def_views(reader.tables@) =~= Seq::empty());
        assert(ls.take(0) =~= Seq::empty());
    }
    while i < all.len()
        invariant
            i <= all.len(),
            ls == char_lists(all@),
            ddl_after(ls.take(i as int)) == reader@,
        decreases all.len() - i,
    {
        proof {
            assert(ls[i as int] == all@[i as int]@);
            assert(ls.take(i + 1).drop_last() =~= ls.take(i as int));
        }
        reader.read_line(trim(all[i].as_slice()));
        i = i + 1;
    }
    assert(ls.take(i as int) =~= ls);
    match reader.current.take() {
        Some(x) => {
            reader.finish_table(x.table);
        },
        None => {},
    }
    reader.tables
}

/// The column is written where it stands: behind `INSERT INTO`, or between
/// `SET` and `WHERE`.
pub open spec fn written_at(upper: Seq<char>, column: Seq<char>, pos: int) -> bool {
    word_at(upper, column, pos) && {
        ||| find(upper, "INSERT INTO"@, 0) matches Some(i) && pos > i
        ||| find_word(upper, "SET"@, 0) matches Some(i) && pos > i && (find_word(upper, "WHERE"@, 0) matches Some(
            w,
        ) ==> pos < w)
    }
}

/// How an upper-case line accesses a column whose upper-case name is given:
/// it is written if it is written anywhere; in any other SQL it is read.
pub open spec fn access_of_column(upper: Seq<char>, column: Seq<char>) -> Option<SqlAccess> {
    if exists|pos: int| 0 <= pos <= upper.len() && #[trigger] written_at(upper, column, pos) {
        Some(SqlAccess::Write)
    } else if find_word(upper, column, 0) is Some && holds_sql(upper) {
        Some(SqlAccess::Read)
    } else {
        None
    }
}

/// Classify how an upper-case line accesses the given upper-case column.
pub fn upper_column_access(upper: &[char], column: &str) -> (r: Option<SqlAccess>)
    ensures
        r == access_of_column(upper@, column@),
{
    let inserted: Option<usize> = find_from(upper, "INSERT INTO", 0);
    let set: Option<usize> = word_from(upper, "SET", 0);
    let condition: Option<usize> = word_from(upper, "WHERE", 0);
    let n: usize = upper.len();
    let mut pos: usize = 0;
    loop
        invariant
            pos <= n,
            n == upper@.len(),
            from_view(inserted) == find(upper@, "INSERT INTO"@, 0),
            from_view(set) == find_word(upper@, "SET"@, 0),
            from_view(condition) == find_word(upper@, "WHERE"@, 0),
            forall|k: int| 0 <= k < pos ==> !#[trigger] written_at(upper@, column@, k),
        ensures
            forall|k: int| 0 <= k <= n ==> !#[trigger] written_at(upper@, column@, k),
        decreases n - pos,
    {
        if stands_as_word(upper, column, pos) {
            let behind_insert: bool = match inserted {
                Some(i) => pos > i,
                None => false,
            };
            let behind_set: bool = match set {
                Some(i) => pos > i,
                None => false,
            };
            let before_where: bool = match condition {
                Some(w) => pos < w,
                None => true,
            };
            if behind_insert || behind_set && before_where {
                assert(written_at(upper@, column@, pos as int));
                return Some(SqlAccess::Write);
            }
        }
        if pos == n {
            break;
        }
        pos = pos + 1;
    }
    if word_from(upper, column, 0).is_some() && upper_holds_sql(upper) {
        return Some(SqlAccess::Read);
    }
    None
}

/// Classify how a SQL line accesses the given column, if it references it:
/// columns in an `INSERT INTO` list or between `UPDATE ... SET` and `WHERE`
/// are writes; references in `SELECT` / `WHERE` / `JOIN` context are reads.
pub fn column_access(line: &str, column_name: &str) -> (r: Option<SqlAccess>)
    ensures
        r == access_of_column(uppercase(line@), uppercase(column_name@)),
{
    let upper = chars_of(line.to_uppercase().as_str());
    upper_column_access(upper.as_slice(), column_name.to_uppercase().as_str())
}

/// The access that a keyword at position `i` stands for. A bare `FROM`
/// behind `DELETE` belongs to `DELETE FROM`.
pub open spec fn keyword_at(upper: Seq<char>, i: int) -> Option<TableAccess> {
    if occurs_at(upper, "INSERT INTO"@, i) {
        Some(TableAccess::Create)
    } else if occurs_at(upper, "DELETE FROM"@, i) {
        Some(TableAccess::Delete)
    } else if occurs_at(upper, "UPDATE"@, i) {
        Some(TableAccess::Update)
    } else if occurs_at(upper, "FROM"@, i) && !ends(trimmed_end(upper.take(i)), "DELETE"@) {
        Some(TableAccess::Read)
    } else if occurs_at(upper, "JOIN"@, i) {
        Some(TableAccess::Read)
    } else {
        None
    }
}

/// The access of the last keyword before `pos`.
pub open spec fn nearest_keyword(upper: Seq<char>, pos: int) -> Option<TableAccess>
    decreases pos,
{
    if pos <= 0 {
        None
    } else {
        match keyword_at(upper, pos - 1) {
            Some(a) => Some(a),
            None => nearest_keyword(upper, pos - 1),
        }
    }
}

/// The access at the first place from `i` on where the table stands behind a
/// keyword.
pub open spec fn access_from(upper: Seq<char>, table: Seq<char>, i: int) -> Option<TableAccess>
    decreases upper.len() + 1 - i,
{
    if i < 0 || i > upper.len() {
        None
    } else if word_at(upper, table, i) && nearest_keyword(upper, i) is Some {
        nearest_keyword(upper, i)
    } else {
        access_from(upper, table, i + 1)
    }
}

/// How an upper-case line accesses a table whose upper-case name is given.
pub open spec fn access_of_table(upper: Seq<char>, table: Seq<char>) -> Option<TableAccess> {
    access_from(upper, table, 0)
}

fn find_keyword(upper: &[char], i: usize) -> (r: Option<TableAccess>)
    requires
        i <= upper@.len(),
    ensures
        r == keyword_at(upper@, i as int),
{
    if stands_at(upper, "INSERT INTO", i) {
        return Some(TableAccess::Create);
    }
    if stands_at(upper, "DELETE FROM", i) {
        return Some(TableAccess::Delete);
    }
    if stands_at(upper, "UPDATE", i) {
        return Some(TableAccess::Update);
    }
    if stands_at(upper, "FROM", i) {
        let head = vstd::slice::slice_subrange(upper, 0, i);
        assert(head@ =~= upper@.take(i as int));
        if !ends_with(trim_end(head), "DELETE") {
            return Some(TableAccess::Read);
        }
    }
    if stands_at(upper, "JOIN", i) {
        return Some(TableAccess::Read);
    }
    None
}

fn keyword_before(upper: &[char], pos: usize) -> (r: Option<TableAccess>)
    requires
        pos <= upper@.len(),
    ensures
        r == nearest_keyword(upper@, pos as int),
{
    let mut i: usize = pos;
    while i > 0
        invariant
            i <= pos <= upper@.len(),
            nearest_keyword(upper@, pos as int) == nearest_keyword(upper@, i as int),
        decreases i,
    {
        i = i - 1;
        let found = find_keyword(upper, i);
        if found.is_some() {
            return found;
        }
    }
    None
}

/// Classify how an upper-case line accesses the given upper-case table.
pub fn upper_table_access(upper: &[char], table: &str) -> (r: Option<TableAccess>)
    ensures
        r == access_of_table(upper@, table@),
{
    let n: usize = upper.len();
    let mut i: usize = 0;
    loop
        invariant
            i <= n,
            n == upper@.len(),
            access_of_table(upper@, table@) == access_from(upper@, table@, i as int),
        decreases n - i,
    {
        if stands_as_word(upper, table, i) {
            let found = keyword_before(upper, i);
            if found.is_some() {
                return found;
            }
        }
        if i == n {
            assert(access_from(upper@, table@, n + 1) is None);
            return None;
        }
        i = i + 1;
    }
}

/// Classify how a SQL line accesses the given table, if it references it.
/// The table name is matched against the nearest preceding SQL keyword:
/// `INSERT INTO t` → Create, `FROM t` / `JOIN t` → Read, `UPDATE t` →
/// Update, `DELETE FROM t` → Delete.
pub fn table_access(line: &str, table_name: &str) -> (r: Option<TableAccess>)
    ensures
        r == access_of_table(uppercase(line@), uppercase(table_name@)),
{
    let upper = chars_of(line.to_uppercase().as_str());
    upper_table_access(upper.as_slice(), table_name.to_uppercase().as_str())
}

} // verus!
