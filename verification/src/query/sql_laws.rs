//! What lines of SQL do to tables and columns.

use vstd::prelude::*;

use crate::lines::{
    drop_bytes, ends, find_word, ident_char, second_piece, stripped, stripped_end, trimmed, trimmed_end, word_at,
};
use crate::query::sql::{
    access_from, access_of_column, access_of_table, body_from, column_of, is_column_name, keyword_at, nearest_keyword,
    piece, statement_step, written_at, ColumnView, DdlState, OpenTable, SqlAccess, TableAccess, TableDefView,
};
use crate::text::{find, lemma_find, occurs_at, uppercase, utf8_length, words};

verus! {

/// The text of a keyword that says what is done to a table.
pub open spec fn is_keyword(text: Seq<char>, access: TableAccess) -> bool {
    match access {
        TableAccess::Create => text == "INSERT INTO"@,
        TableAccess::Delete => text == "DELETE FROM"@,
        TableAccess::Update => text == "UPDATE"@,
        TableAccess::Read => text == "FROM"@ || text == "JOIN"@,
    }
}

/// A keyword with a given meaning stands at `k`. The `FROM` of a deletion is
/// none of its own.
pub open spec fn keyword_stands(upper: Seq<char>, k: int, access: TableAccess) -> bool {
    exists|text: Seq<char>| #[trigger]
        is_keyword(text, access) && occurs_at(upper, text, k) && (text == "FROM"@ ==> !ends(
            trimmed_end(upper.take(k)),
            "DELETE"@,
        ))
}

/// No keyword stands between two positions.
pub open spec fn none_between(upper: Seq<char>, from: int, to: int) -> bool {
    forall|j: int, access: TableAccess| from < j < to ==> !#[trigger] keyword_stands(upper, j, access)
}

proof fn lemma_keyword(upper: Seq<char>, k: int)
    ensures
        match keyword_at(upper, k) {
            Some(a) => keyword_stands(upper, k, a) && forall|b: TableAccess| #[trigger] keyword_stands(upper, k, b) ==> b == a,
            None => forall|b: TableAccess| !#[trigger] keyword_stands(upper, k, b),
        },
{
    reveal_strlit("INSERT INTO");
    reveal_strlit("DELETE FROM");
    reveal_strlit("UPDATE");
    reveal_strlit("FROM");
    reveal_strlit("JOIN");
    assert(is_keyword("INSERT INTO"@, TableAccess::Create));
    assert(is_keyword("DELETE FROM"@, TableAccess::Delete));
    assert(is_keyword("UPDATE"@, TableAccess::Update));
    assert(is_keyword("FROM"@, TableAccess::Read));
    assert(is_keyword("JOIN"@, TableAccess::Read));
    let at = |t: Seq<char>| occurs_at(upper, t, k);
    assert(at("INSERT INTO"@) ==> upper.subrange(k, k + 11)[0] == upper[k]);
    assert(at("DELETE FROM"@) ==> upper.subrange(k, k + 11)[0] == upper[k]);
    assert(at("UPDATE"@) ==> upper.subrange(k, k + 6)[0] == upper[k]);
    assert(at("FROM"@) ==> upper.subrange(k, k + 4)[0] == upper[k]);
    assert(at("JOIN"@) ==> upper.subrange(k, k + 4)[0] == upper[k]);
    assert("FROM"@[0] != "JOIN"@[0]);
}

proof fn lemma_nearest(upper: Seq<char>, k: int, pos: int, access: TableAccess)
    requires
        0 <= k < pos,
        keyword_stands(upper, k, access),
        none_between(upper, k, pos),
    ensures
        nearest_keyword(upper, pos) == Some(access),
    decreases pos,
{
    lemma_keyword(upper, pos - 1);
    if pos - 1 > k {
        if let Some(a) = keyword_at(upper, pos - 1) {
            assert(keyword_stands(upper, pos - 1, a));
        }
        lemma_nearest(upper, k, pos - 1, access);
    }
}

proof fn lemma_nearest_stands(upper: Seq<char>, pos: int) -> (k: int)
    ensures
        match nearest_keyword(upper, pos) {
            Some(a) => 0 <= k < pos && keyword_stands(upper, k, a) && none_between(upper, k, pos),
            None => forall|j: int, b: TableAccess| 0 <= j < pos ==> !#[trigger] keyword_stands(upper, j, b),
        },
    decreases pos,
{
    if pos <= 0 {
        0
    } else {
        lemma_keyword(upper, pos - 1);
        match keyword_at(upper, pos - 1) {
            Some(a) => pos - 1,
            None => {
                let k = lemma_nearest_stands(upper, pos - 1);
                match nearest_keyword(upper, pos - 1) {
                    Some(a) => {
                        assert forall|j: int, b: TableAccess| k < j < pos implies !#[trigger] keyword_stands(upper, j, b) by {
                            if j == pos - 1 {
                                assert(!keyword_stands(upper, pos - 1, b));
                            }
                        }
                        k
                    },
                    None => {
                        assert forall|j: int, b: TableAccess| 0 <= j < pos implies !#[trigger] keyword_stands(upper, j, b) by {
                            if j == pos - 1 {
                                assert(!keyword_stands(upper, pos - 1, b));
                            }
                        }
                        k
                    },
                }
            },
        }
    }
}

/// A keyword with the meaning is the last one before the place.
pub open spec fn leads_to(upper: Seq<char>, k: int, i: int, access: TableAccess) -> bool {
    0 <= k < i && keyword_stands(upper, k, access) && none_between(upper, k, i)
}

/// The table stands at the place as a whole word, behind some keyword.
pub open spec fn table_behind(upper: Seq<char>, table: Seq<char>, i: int) -> bool {
    0 <= i <= upper.len() && word_at(upper, table, i) && exists|k: int, a: TableAccess| #[trigger] leads_to(upper, k, i, a)
}

proof fn lemma_access_from(upper: Seq<char>, table: Seq<char>, from: int) -> (r: (int, int))
    requires
        0 <= from,
    ensures
        match access_from(upper, table, from) {
            Some(a) => from <= r.0 && table_behind(upper, table, r.0) && leads_to(upper, r.1, r.0, a) && forall|j: int|
                from <= j < r.0 ==> !#[trigger] table_behind(upper, table, j),
            None => forall|j: int| from <= j ==> !#[trigger] table_behind(upper, table, j),
        },
    decreases upper.len() + 1 - from,
{
    if from > upper.len() {
        (0, 0)
    } else {
        let k = lemma_nearest_stands(upper, from);
        if word_at(upper, table, from) && nearest_keyword(upper, from) is Some {
            assert(leads_to(upper, k, from, nearest_keyword(upper, from)->0));
            (from, k)
        } else {
            if word_at(upper, table, from) {
                assert(!table_behind(upper, table, from)) by {
                    if table_behind(upper, table, from) {
                        let (j, a) = choose|j: int, a: TableAccess| #[trigger] leads_to(upper, j, from, a);
                        assert(keyword_stands(upper, j, a));
                    }
                }
            }
            let r = lemma_access_from(upper, table, from + 1);
            r
        }
    }
}

/// A line creates rows of a table where the table stands behind `INSERT INTO`,
/// deletes them behind `DELETE FROM`, updates them behind `UPDATE` and reads
/// them behind any other `FROM` or `JOIN`; the nearest keyword counts, at the
/// first place where the table stands behind one.
pub proof fn law_table_access(upper: Seq<char>, table: Seq<char>, i: int, k: int, access: TableAccess)
    requires
        0 <= i <= upper.len(),
        word_at(upper, table, i),
        leads_to(upper, k, i, access),
        forall|j: int| 0 <= j < i ==> !#[trigger] table_behind(upper, table, j),
    ensures
        access_of_table(upper, table) == Some(access),
{
    assert(table_behind(upper, table, i));
    let r = lemma_access_from(upper, table, 0);
    assert(access_of_table(upper, table) is Some);
    let a = access_of_table(upper, table)->0;
    assert(r.0 == i) by {
        if r.0 < i {
            assert(!table_behind(upper, table, r.0));
        }
    }
    lemma_nearest(upper, k, i, access);
    lemma_nearest(upper, r.1, i, a);
}

/// A line that does something to a table names it as a whole word behind a
/// keyword; a line that does nothing does not.
pub proof fn law_table_accessed(upper: Seq<char>, table: Seq<char>)
    ensures
        access_of_table(upper, table) is Some <==> exists|i: int| #[trigger] table_behind(upper, table, i),
{
    let r = lemma_access_from(upper, table, 0);
    if access_of_table(upper, table) is Some {
        assert(table_behind(upper, table, r.0));
    }
    if exists|i: int| #[trigger] table_behind(upper, table, i) {
        let i = choose|i: int| #[trigger] table_behind(upper, table, i);
        assert(0 <= i);
    }
}

proof fn lemma_first_word(s: Seq<char>, word: Seq<char>, from: int)
    requires
        0 <= from,
    ensures
        match find_word(s, word, from) {
            Some(i) => from <= i <= s.len() && word_at(s, word, i) && forall|j: int|
                from <= j < i ==> !#[trigger] word_at(s, word, j),
            None => forall|j: int| from <= j <= s.len() ==> !#[trigger] word_at(s, word, j),
        },
    decreases s.len() + 1 - from,
{
    if from <= s.len() && !word_at(s, word, from) {
        lemma_first_word(s, word, from + 1);
    }
}

/// A column is written where it stands as a whole word behind some `INSERT
/// INTO`, or behind some `SET` with no `WHERE` before it.
pub proof fn law_column_written(upper: Seq<char>, column: Seq<char>, i: int, k: int)
    requires
        0 <= k < i <= upper.len(),
        word_at(upper, column, i),
        occurs_at(upper, "INSERT INTO"@, k) || word_at(upper, "SET"@, k) && forall|j: int|
            0 <= j <= i ==> !#[trigger] word_at(upper, "WHERE"@, j),
    ensures
        access_of_column(upper, column) == Some(SqlAccess::Write),
{
    lemma_find(upper, "INSERT INTO"@, 0);
    lemma_first_word(upper, "SET"@, 0);
    lemma_first_word(upper, "WHERE"@, 0);
    if occurs_at(upper, "INSERT INTO"@, k) {
        let at = find(upper, "INSERT INTO"@, 0)->0;
        assert(at <= k);
    } else {
        let at = find_word(upper, "SET"@, 0)->0;
        assert(at <= k) by {
            if at > k {
                assert(!word_at(upper, "SET"@, k));
            }
        }
        if let Some(w) = find_word(upper, "WHERE"@, 0) {
            if w <= i {
                assert(!word_at(upper, "WHERE"@, w));
            }
        }
    }
    assert(written_at(upper, column, i));
}

/// A column that stands in a line of SQL without `INSERT INTO` and without
/// `SET` is read there.
pub proof fn law_column_read(upper: Seq<char>, column: Seq<char>, i: int, keyword: Seq<char>, k: int)
    requires
        0 <= i <= upper.len(),
        word_at(upper, column, i),
        forall|j: int| !#[trigger] occurs_at(upper, "INSERT INTO"@, j),
        forall|j: int| !#[trigger] word_at(upper, "SET"@, j),
        occurs_at(upper, keyword, k),
        keyword == "SELECT "@ || keyword == " FROM "@ || keyword == "WHERE "@ || keyword == " JOIN "@ || keyword
            == "UPDATE "@ || keyword == "DELETE FROM "@,
    ensures
        access_of_column(upper, column) == Some(SqlAccess::Read),
{
    lemma_find(upper, "INSERT INTO"@, 0);
    lemma_first_word(upper, "SET"@, 0);
    lemma_first_word(upper, column, 0);
    lemma_find(upper, keyword, 0);
    assert forall|pos: int| 0 <= pos <= upper.len() implies !#[trigger] written_at(upper, column, pos) by {}
    assert(!word_at(upper, "SET"@, 0));
}

/// A line that does not name a column does not access it.
pub proof fn law_column_unnamed(upper: Seq<char>, column: Seq<char>)
    requires
        forall|j: int| 0 <= j <= upper.len() ==> !#[trigger] word_at(upper, column, j),
    ensures
        access_of_column(upper, column) is None,
{
    lemma_first_word(upper, column, 0);
    assert forall|pos: int| 0 <= pos <= upper.len() implies !#[trigger] written_at(upper, column, pos) by {
        assert(!word_at(upper, column, pos));
    }
}

/// A word that starts a constraint of a table and no column.
pub open spec fn starts_constraint(word: Seq<char>) -> bool {
    word == "PRIMARY"@ || word == "FOREIGN"@ || word == "UNIQUE"@ || word == "CONSTRAINT"@ || word == "KEY"@ || word
        == "INDEX"@ || word == "CHECK"@
}

/// A definition gives a column its name and its type, without the quotes and
/// commas around them, unless it starts a constraint.
pub proof fn law_column_defined(line: Seq<char>, name: Seq<char>)
    requires
        words(line).len() >= 2,
        name == stripped(words(line)[0], "`\","@),
        name.len() > 0,
        forall|i: int| 0 <= i < name.len() ==> ident_char(#[trigger] name[i]) || name[i] == '$',
    ensures
        starts_constraint(uppercase(name)) ==> column_of(line) is None,
        !starts_constraint(uppercase(name)) ==> (column_of(line) matches Some(c) && c.column_name == name && c.sql_type
            == stripped_end(words(line)[1], ","@)),
{
    assert(is_column_name(name));
}

/// The comment of a column is what stands between the quotes behind `COMMENT`.
pub proof fn law_column_comment(line: Seq<char>, c: ColumnView, i: int)
    requires
        column_of(line) == Some(c),
    ensures
        (forall|j: int| !#[trigger] occurs_at(uppercase(line), "COMMENT"@, j)) ==> c.comment is None,
        0 <= i && occurs_at(uppercase(line), "COMMENT"@, i) && (forall|j: int|
            0 <= j < i ==> !#[trigger] occurs_at(uppercase(line), "COMMENT"@, j)) ==> c.comment == second_piece(
            drop_bytes(line, utf8_length(uppercase(line).take(i))),
            '\'',
        ),
{
    lemma_find(uppercase(line), "COMMENT"@, 0);
}

/// A character that means nothing between the columns of a table.
pub open spec fn is_plain(s: Seq<char>, i: int) -> bool {
    s[i] != '\'' && s[i] != '(' && s[i] != ')' && s[i] != ',' && !occurs_at(s, "--"@, i)
}

proof fn lemma_plain(s: Seq<char>, i: int, e: int, from: Option<int>, depth: usize)
    requires
        0 <= i <= e <= s.len(),
        forall|k: int| i <= k < e ==> #[trigger] is_plain(s, k),
    ensures
        body_from(s, i, from, depth, false) == body_from(s, e, from, depth, false),
    decreases e - i,
{
    if i < e {
        assert(is_plain(s, i));
        lemma_plain(s, i + 1, e, from, depth);
    }
}

/// A line of a table definition that holds one column and a comma adds the
/// column to the table, which stays open.
pub proof fn law_column_line(tables: Seq<TableDefView>, open: OpenTable, column: Seq<char>, c: ColumnView)
    requires
        open.begun,
        open.depth == 0,
        forall|k: int| 0 <= k < column.len() ==> #[trigger] is_plain(column + ","@, k),
        column_of(trimmed(column)) == Some(c),
    ensures
        ({
            let next = statement_step(DdlState { tables, current: Some(open) }, column + ","@);
            &&& next.0.tables == tables
            &&& next.1 is None
            &&& next.0.current matches Some(after) && after.begun && after.depth == 0 && after.table.table_name
                == open.table.table_name && after.table.columns == open.table.columns.push(c)
        }),
{
    reveal_strlit(",");
    reveal_strlit("--");
    reveal_strlit(");");
    let s = column + ","@;
    let n = column.len() as int;
    assert(s[n] == ',');
    lemma_plain(s, 0, n, Some(0), 0);
    assert(!occurs_at(s, "--"@, n)) by {
        if occurs_at(s, "--"@, n) {
            assert(s.subrange(n, n + 2)[0] == s[n]);
        }
    }
    let part = body_from(s, 0, Some(0), 0, false);
    reveal_with_fuel(body_from, 2);
    let rest = body_from(s, n + 1, Some(n + 1), 0, false);
    assert(part.pieces == piece(s, Some(0), n) + rest.pieces);
    assert(s.subrange(0, n) =~= column);
    assert(rest.pieces =~= seq![s.subrange(n + 1, n + 1)]);
    let last = s.subrange(n + 1, n + 1);
    assert(part.pieces =~= seq![column, last]);
    lemma_blank(last);
    reveal_with_fuel(crate::query::sql::columns_of, 3);
    assert(part.pieces.drop_last() =~= seq![column]);
    assert(seq![column].drop_last() =~= Seq::empty());
    assert(crate::query::sql::columns_of(part.pieces) =~= seq![c]);
    assert(open.table.columns + seq![c] =~= open.table.columns.push(c));
    if ends(s, ");"@) {
        assert(s.subrange(s.len() - 2, s.len() as int)[1] == s[s.len() - 1]);
    }
}

proof fn lemma_blank(s: Seq<char>)
    requires
        s.len() == 0,
    ensures
        column_of(trimmed(s)) is None,
{
    let (a, b) = crate::text_laws::law_trimmed(s);
    assert(trimmed(s) =~= s);
    let t = trimmed(s);
    assert(words(t).len() == 0) by {
        if words(t).len() > 0 {
            crate::text_laws::law_words(t, words(t)[0]);
            assert(words(t).contains(words(t)[0]));
            let (x, y) = choose|x: int, y: int| #[trigger]
                crate::text_laws::is_word(t, x, y) && words(t)[0] == t.subrange(x, y);
        }
    }
}

} // verus!
