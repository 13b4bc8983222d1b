//! How names on lines are bound, commented and answered.

use vstd::prelude::*;

use crate::cli::setup::{first_uses, place_key, place_keys, resolved_uses};
use crate::lift::lifter::UnresolvedUse;
use crate::lines::{ends, ident_char, lines};
use crate::model::space_data::SpaceView;
use crate::order::{lemma_stable_sorted_contains, stable_sorted};
use crate::query::column_usage::{comment_in, comment_in_tables, comment_on};
use crate::query::crud_lines::{
    bindings_in, bindings_of, bindings_of_line, bindings_of_lines, by_pair, called_on, ident_end, is_variable,
    method_at, separates, tokens, tokens_so_far,
};
use crate::query::domain::{drift_count, ClusterFacts};
use crate::query::enforces::{told, EventStatus, EventView};
use crate::query::package_laws::{lemma_number, number};
use crate::query::resolve::name_of;
use crate::query::source_laws::law_repository_entity;
use crate::query::sql::{tables_in, ColumnView, TableDefView};
use crate::seqs::{lemma_plus_contains, lemma_push_contains, lemma_without_repeats};
use crate::text::{find, is_lower, is_space, lemma_find, lowercase, occurs_at, uppercase};
use crate::text_map::{lemma_other_key, lemma_with_entry, lookup};

verus! {

/// A character that ends a token: white space, a bracket, a comma or a
/// semicolon.
pub open spec fn parts_tokens(c: char) -> bool {
    is_space(c) || c == '(' || c == ')' || c == ',' || c == ';'
}

/// A token stands from `a` to `b`.
pub open spec fn is_token(line: Seq<char>, a: int, b: int) -> bool {
    &&& 0 <= a < b <= line.len()
    &&& a == 0 || parts_tokens(line[a - 1])
    &&& b == line.len() || parts_tokens(line[b])
    &&& forall|k: int| a <= k < b ==> !parts_tokens(#[trigger] line[k])
}

proof fn lemma_open(line: Seq<char>) -> (k: int)
    ensures
        0 <= k <= line.len(),
        tokens_so_far(line).1 == line.skip(k),
        k == 0 || parts_tokens(line[k - 1]),
        forall|j: int| k <= j < line.len() ==> !parts_tokens(#[trigger] line[j]),
    decreases line.len(),
{
    if line.len() == 0 {
        assert(line.skip(0) =~= Seq::empty());
        0
    } else {
        let front = line.drop_last();
        let k = lemma_open(front);
        assert forall|j: int| 0 <= j < front.len() implies #[trigger] line[j] == front[j] by {}
        if !separates(line.last()) {
            assert(line.skip(k) =~= front.skip(k).push(line.last()));
            k
        } else {
            assert(line.skip(line.len() as int) =~= Seq::empty());
            line.len() as int
        }
    }
}

proof fn lemma_done(line: Seq<char>, a: int, b: int)
    requires
        is_token(line, a, b),
        b < line.len(),
    ensures
        tokens_so_far(line).0.contains(line.subrange(a, b)),
    decreases line.len(),
{
    let front = line.drop_last();
    let (done, open) = tokens_so_far(front);
    assert forall|j: int| 0 <= j < front.len() implies #[trigger] line[j] == front[j] by {}
    lemma_push_contains(done, open);
    assert(front.subrange(a, b) =~= line.subrange(a, b));
    if b < front.len() {
        assert(is_token(front, a, b));
        lemma_done(front, a, b);
    } else {
        let k = lemma_open(front);
        assert(k == a) by {
            if k < a {
                assert(parts_tokens(line[a - 1]));
                assert(!parts_tokens(front[a - 1]));
            }
            if k > a {
                assert(parts_tokens(front[k - 1]));
                assert(!parts_tokens(line[k - 1]));
            }
        }
        assert(front.skip(a) =~= line.subrange(a, b));
        assert(separates(line.last()));
    }
}

/// The tokens of a line are what stands between the characters that end them.
pub proof fn law_tokens(line: Seq<char>, a: int, b: int)
    requires
        is_token(line, a, b),
    ensures
        tokens(line).contains(line.subrange(a, b)),
{
    let (done, open) = tokens_so_far(line);
    lemma_push_contains(done, open);
    if b < line.len() {
        lemma_done(line, a, b);
    } else {
        let k = lemma_open(line);
        assert(k == a) by {
            if k < a {
                assert(!parts_tokens(line[a - 1]));
            }
            if k > a {
                assert(!parts_tokens(line[k - 1]));
            }
        }
        assert(line.skip(a) =~= line.subrange(a, b));
    }
}

proof fn lemma_bindings(words: Seq<Seq<char>>, n: int, k: int, entity: Seq<char>)
    requires
        0 <= k < n < words.len(),
        crate::query::java::entity_of_repository(words[k]) == Some(entity),
        is_variable(words[k + 1]),
    ensures
        bindings_in(words, n).contains((words[k + 1], entity)),
    decreases n,
{
    let before = bindings_in(words, n - 1);
    let all = bindings_in(words, n);
    if all.len() > before.len() {
        lemma_push_contains(before, all.last());
        assert(all =~= before.push(all.last()));
    }
    if k < n - 1 {
        lemma_bindings(words, n - 1, k, entity);
    }
}

proof fn lemma_lines(all: Seq<Seq<char>>, i: int, x: (Seq<char>, Seq<char>))
    requires
        0 <= i < all.len(),
        bindings_of_line(all[i]).contains(x),
    ensures
        bindings_of_lines(all).contains(x),
    decreases all.len(),
{
    let front = bindings_of_lines(all.drop_last());
    lemma_plus_contains(front, bindings_of_line(all.last()));
    if i < all.len() - 1 {
        lemma_lines(all.drop_last(), i, x);
    }
}

/// A variable that is declared with the type of a repository stands for the
/// entity that the repository is named after.
pub proof fn law_binding(content: Seq<char>, i: int, k: int, entity: Seq<char>)
    requires
        0 <= i < lines(content).len(),
        0 <= k,
        k + 1 < tokens(lines(content)[i]).len(),
        entity.len() > 0,
        tokens(lines(content)[i])[k] == entity + "Repository"@ || tokens(lines(content)[i])[k] == entity + "Dao"@,
        ({
            let var = tokens(lines(content)[i])[k + 1];
            var.len() > 0 && is_lower(var[0]) && forall|j: int| 0 <= j < var.len() ==> ident_char(#[trigger] var[j])
        }),
    ensures
        bindings_of(content).contains((tokens(lines(content)[i])[k + 1], entity)),
{
    let words = tokens(lines(content)[i]);
    let x = (words[k + 1], entity);
    law_repository_entity(entity);
    lemma_bindings(words, words.len() - 1, k, entity);
    lemma_lines(lines(content), i, x);
    let all = bindings_of_lines(lines(content));
    lemma_stable_sorted_contains(all, by_pair());
    lemma_without_repeats(stable_sorted(all, by_pair()));
}

proof fn lemma_ident_end(s: Seq<char>, i: int, e: int)
    requires
        0 <= i <= e < s.len(),
        forall|k: int| i <= k < e ==> ident_char(#[trigger] s[k]),
        !ident_char(s[e]),
    ensures
        ident_end(s, i) == e,
    decreases e - i,
{
    if i < e {
        assert(ident_char(s[i]));
        lemma_ident_end(s, i + 1, e);
    }
}

/// The first call of a method on a variable that stands on its own is found by
/// the name of the method.
pub proof fn law_called_on(line: Seq<char>, var: Seq<char>, i: int, e: int)
    requires
        0 <= i,
        occurs_at(line, var + "."@, i),
        forall|j: int| 0 <= j < i ==> !#[trigger] occurs_at(line, var + "."@, j),
        i == 0 || !ident_char(line[i - 1]),
        i + var.len() + 1 < e < line.len(),
        line[e] == '(',
        !ident_char('('),
        forall|k: int| i + var.len() + 1 <= k < e ==> ident_char(#[trigger] line[k]),
    ensures
        called_on(line, var) == Some(line.subrange(i + var.len() + 1, e)),
{
    reveal_strlit(".");
    let pattern = var + "."@;
    lemma_find(line, pattern, 0);
    let f = find(line, pattern, 0)->Some_0;
    assert(f == i);
    lemma_ident_end(line, i + pattern.len(), e);
    assert(method_at(line, i + pattern.len()) == Some(line.subrange(i + var.len() + 1, e)));
}

/// A column of a definition is commented by the comment that the definition
/// gives to a column of that name; letters of both cases count as one.
pub proof fn law_column_comment(columns: Seq<ColumnView>, column: Seq<char>)
    ensures
        match comment_in(columns, column) {
            Some(c) => exists|i: int|
                0 <= i < columns.len() && uppercase((#[trigger] columns[i]).column_name) == uppercase(column)
                    && columns[i].comment == Some(c),
            None => forall|i: int|
                0 <= i < columns.len() && uppercase((#[trigger] columns[i]).column_name) == uppercase(column)
                    ==> columns[i].comment is None,
        },
    decreases columns.len(),
{
    if columns.len() > 0 {
        let front = columns.drop_last();
        law_column_comment(front, column);
        assert forall|i: int| 0 <= i < front.len() implies #[trigger] columns[i] == front[i] by {}
        assert(columns[columns.len() - 1] == columns.last());
        if let Some(c) = comment_in(front, column) {
            let i = choose|i: int|
                0 <= i < front.len() && uppercase((#[trigger] front[i]).column_name) == uppercase(column)
                    && front[i].comment == Some(c);
            assert(columns[i] == front[i]);
        }
    }
}

proof fn lemma_table_comment(tables: Seq<TableDefView>, table: Seq<char>, column: Seq<char>)
    ensures
        match comment_in_tables(tables, table, column) {
            Some(c) => exists|i: int|
                0 <= i < tables.len() && uppercase((#[trigger] tables[i]).table_name) == uppercase(table)
                    && comment_in(tables[i].columns, column) == Some(c),
            None => forall|i: int|
                0 <= i < tables.len() && uppercase((#[trigger] tables[i]).table_name) == uppercase(table)
                    ==> comment_in(tables[i].columns, column) is None,
        },
    decreases tables.len(),
{
    if tables.len() > 0 {
        let front = tables.drop_last();
        lemma_table_comment(front, table, column);
        assert forall|i: int| 0 <= i < front.len() implies #[trigger] tables[i] == front[i] by {}
        assert(tables[tables.len() - 1] == tables.last());
        if let Some(c) = comment_in_tables(front, table, column) {
            let i = choose|i: int|
                0 <= i < front.len() && uppercase((#[trigger] front[i]).table_name) == uppercase(table) && comment_in(
                    front[i].columns,
                    column,
                ) == Some(c);
            assert(tables[i] == front[i]);
        }
    }
}

/// A definition of the table in a file of SQL comments the column.
pub open spec fn is_commented(
    source: (Seq<char>, Seq<char>),
    table: Seq<char>,
    column: Seq<char>,
    i: int,
    c: Seq<char>,
) -> bool {
    &&& ends(lowercase(source.0), ".sql"@)
    &&& 0 <= i < tables_in(source.1).len()
    &&& uppercase(tables_in(source.1)[i].table_name) == uppercase(table)
    &&& comment_in(tables_in(source.1)[i].columns, column) == Some(c)
}

/// The comment of a column comes from a definition of its table in a file of
/// SQL, and there is none only where no such definition gives one.
pub proof fn law_comment_on(sources: Seq<(Seq<char>, Seq<char>)>, table: Seq<char>, column: Seq<char>)
    ensures
        match comment_on(sources, table, column) {
            Some(c) => exists|s: int, i: int|
                0 <= s < sources.len() && #[trigger] is_commented(sources[s], table, column, i, c),
            None => forall|s: int, i: int, c: Seq<char>|
                0 <= s < sources.len() ==> !#[trigger] is_commented(sources[s], table, column, i, c),
        },
    decreases sources.len(),
{
    if sources.len() > 0 {
        let front = sources.drop_last();
        let last = sources.last();
        law_comment_on(front, table, column);
        lemma_table_comment(tables_in(last.1), table, column);
        let n = sources.len() - 1;
        assert forall|s: int| 0 <= s < n implies #[trigger] sources[s] == front[s] by {}
        match comment_on(front, table, column) {
            Some(c) => {
                let (s, i) = choose|s: int, i: int|
                    0 <= s < front.len() && #[trigger] is_commented(front[s], table, column, i, c);
                assert(is_commented(sources[s], table, column, i, c));
            },
            None => {
                assert forall|s: int, i: int, c: Seq<char>| 0 <= s < n implies !#[trigger] is_commented(
                    sources[s],
                    table,
                    column,
                    i,
                    c,
                ) by {
                    assert(!is_commented(front[s], table, column, i, c));
                }
                if let Some(c) = comment_on(sources, table, column) {
                    let list = tables_in(last.1);
                    let i = choose|i: int|
                        0 <= i < list.len() && uppercase((#[trigger] list[i]).table_name) == uppercase(table)
                            && comment_in(list[i].columns, column) == Some(c);
                    assert(is_commented(sources[n], table, column, i, c));
                }
            },
        }
    }
}

/// The number of clusters that cross packages.
pub proof fn law_drift(v: Seq<ClusterFacts>)
    ensures
        drift_count(v) == number(v, |c: ClusterFacts| c.packages.len() > 1),
    decreases v.len(),
{
    lemma_number(v, |c: ClusterFacts| c.packages.len() > 1);
    if v.len() > 0 {
        law_drift(v.drop_last());
    }
}

/// What is told of a check: its status by name, whether all was looked at, the
/// first twenty cells that were visited, by their names, and what is in the way.
pub proof fn law_check_told(space: SpaceView, entry: Seq<char>, relation: Seq<char>, report: EventView, i: int)
    ensures
        ({
            let r = told(space, entry, relation, report);
            &&& r.entry_symbol == entry
            &&& r.required_relation == relation
            &&& r.exhaustive == report.exhaustive
            &&& report.status == EventStatus::Satisfied ==> r.status == "satisfied"@
            &&& report.status == EventStatus::Violated ==> r.status == "violated"@
            &&& report.status == EventStatus::Unknown ==> r.status == "unknown"@
            &&& report.visited.len() <= 20 ==> r.visited.len() == report.visited.len()
            &&& report.visited.len() > 20 ==> r.visited.len() == 20
            &&& 0 <= i < r.visited.len() ==> match name_of(space.index, report.visited[i]) {
                Some(name) => r.visited[i] == name,
                None => r.visited[i] == report.visited[i],
            }
            &&& r.obstructions.len() == report.obstructions.len()
            &&& 0 <= i < r.obstructions.len() ==> r.obstructions[i] == report.obstructions[i].0 + ": "@
                + report.obstructions[i].1
        }),
{
}

proof fn lemma_place_keys(v: Seq<UnresolvedUse>, key: Seq<char>)
    ensures
        place_keys(v).contains(key) <==> exists|i: int| 0 <= i < v.len() && place_key(#[trigger] v[i]) == key,
    decreases v.len(),
{
    if v.len() > 0 {
        let front = v.drop_last();
        lemma_place_keys(front, key);
        lemma_push_contains(place_keys(front), place_key(v.last()));
        assert forall|i: int| 0 <= i < front.len() implies #[trigger] v[i] == front[i] by {}
        assert(v[v.len() - 1] == v.last());
        if place_keys(front).contains(key) {
            let i = choose|i: int| 0 <= i < front.len() && place_key(#[trigger] front[i]) == key;
            assert(place_key(v[i]) == key);
        }
    }
}

/// Every place with an unknown name is asked about, by its first use.
pub proof fn law_first_uses(v: Seq<UnresolvedUse>, i: int)
    requires
        0 <= i < v.len(),
        forall|j: int| 0 <= j < i ==> place_key(#[trigger] v[j]) != place_key(v[i]),
    ensures
        first_uses(v).contains(v[i]),
    decreases v.len(),
{
    let front = v.drop_last();
    lemma_push_contains(first_uses(front), v.last());
    if i < v.len() - 1 {
        assert forall|j: int| 0 <= j < i implies place_key(#[trigger] front[j]) != place_key(front[i]) by {
            assert(place_key(v[j]) != place_key(v[i]));
        }
        law_first_uses(front, i);
    } else {
        lemma_place_keys(front, place_key(v.last()));
        if place_keys(front).contains(place_key(v.last())) {
            let j = choose|j: int| 0 <= j < front.len() && place_key(#[trigger] front[j]) == place_key(v.last());
            assert(place_key(v[j]) != place_key(v[i]));
        }
    }
}

/// An answer stands for the name that was asked about, unless a later one does.
pub proof fn law_answers_kept(uses: Seq<UnresolvedUse>, answers: Seq<Seq<Seq<char>>>, n: int, k: int)
    requires
        0 <= k < n <= uses.len(),
        n <= answers.len(),
        answers[k].len() > 0,
        forall|j: int|
            k < j < n && (#[trigger] uses[j]).target_text == uses[k].target_text ==> answers[j].len() == 0,
    ensures
        lookup(resolved_uses(uses, answers, n), uses[k].target_text) == Some(answers[k][0]),
    decreases n,
{
    let before = resolved_uses(uses, answers, n - 1);
    if k == n - 1 {
        lemma_with_entry(before, uses[k].target_text, answers[k][0]);
    } else {
        law_answers_kept(uses, answers, n - 1, k);
        if answers[n - 1].len() > 0 {
            assert(uses[n - 1].target_text != uses[k].target_text);
            lemma_other_key(before, uses[n - 1].target_text, answers[n - 1][0], uses[k].target_text);
        }
    }
}

} // verus!
