//! What the matrix of entry points and tables says.

use vstd::prelude::*;

use crate::lines::{begins, lines};
use crate::model::entity::JavaEntityType;
use crate::model::graph::LinkView;
use crate::model::space_data::{EntityView, SpaceView};
use crate::order::{lemma_stable_sorted, lemma_stable_sorted_contains, stable_sorted};
use crate::query::crud::{
    bindings_in_file, call_edges, called_names, created_names, crud_of, entries_of, entry_names, evidence_seen,
    first_five, has_operation, is_data_class, last_named, last_statement, lines_of_entity, matrix_rows, observed,
    observed_at, operations_on, operations_on_all, operations_seen, repository_of_line, repository_of_lines, scene_of,
    sql_of_line, sql_of_lines, table_of, tables_among, CrudEntryView, CrudMatrixResultView, ObservationView, Scene,
    TableCrudView, TableView,
};
use crate::query::crud_lines::called_on;
use crate::query::feature::by_text;
use crate::query::java::{accessor_name, operation_of};
use crate::query::reach::{is_reachable, law_reached, reached};
use crate::query::resolve::name_of;
use crate::query::sql::{access_of_table, TableAccess};
use crate::seqs::lemma_push_contains;
use crate::text::uppercase;

verus! {

/// The letter of an operation on tables.
pub open spec fn is_letter(c: char, access: TableAccess) -> bool {
    match c {
        'C' => access == TableAccess::Create,
        'R' => access == TableAccess::Read,
        'U' => access == TableAccess::Update,
        'D' => access == TableAccess::Delete,
        _ => false,
    }
}

/// A line of SQL does something to a table of the class.
pub open spec fn line_does(line: Seq<char>, tables: Seq<TableView>, class: Seq<char>, c: char) -> bool {
    exists|n: int|
        0 <= n < tables.len() && (#[trigger] tables[n]).class_fqn == class && access_of_table(
            uppercase(line),
            uppercase(tables[n].table_name),
        ) is Some && is_letter(c, access_of_table(uppercase(line), uppercase(tables[n].table_name))->0)
}

/// One of the lines does something to a table of the class.
pub open spec fn lines_do(body: Seq<Seq<char>>, tables: Seq<TableView>, class: Seq<char>, c: char) -> bool {
    exists|i: int| 0 <= i < body.len() && #[trigger] line_does(body[i], tables, class, c)
}

/// A line calls a method of a repository of the class whose name stands for
/// the operation.
pub open spec fn line_calls(
    line: Seq<char>,
    bindings: Seq<(Seq<char>, Seq<char>)>,
    tables: Seq<TableView>,
    class: Seq<char>,
    c: char,
) -> bool {
    exists|b: int, n: int|
        0 <= b < bindings.len() && 0 <= n < tables.len() && (#[trigger] tables[n]).class_fqn == class && tables[n].simple
            == (#[trigger] bindings[b]).1 && called_on(line, bindings[b].0) is Some && operation_of(
            called_on(line, bindings[b].0)->0,
        ) is Some && operation_of(called_on(line, bindings[b].0)->0)->0.contains(c)
}

pub open spec fn lines_call(
    body: Seq<Seq<char>>,
    bindings: Seq<(Seq<char>, Seq<char>)>,
    tables: Seq<TableView>,
    class: Seq<char>,
    c: char,
) -> bool {
    exists|i: int| 0 <= i < body.len() && #[trigger] line_calls(body[i], bindings, tables, class, c)
}

/// The code of a name does something to a table of the class: SQL in its body
/// does, or a call on a repository variable there, or its mapper statement.
pub open spec fn code_does(scene: Scene, name: Seq<char>, class: Seq<char>, c: char) -> bool {
    ||| last_named(scene.entities, name) is Some && ({
        let e = scene.entities[last_named(scene.entities, name)->0];
        let body = lines_of_entity(e, scene.sources);
        lines_do(body, scene.tables, class, c) || lines_call(
            body,
            bindings_in_file(e.witness.file, scene.sources),
            scene.tables,
            class,
            c,
        )
    })
    ||| last_statement(scene.statements, name) is Some && lines_do(
        lines(last_statement(scene.statements, name)->0),
        scene.tables,
        class,
        c,
    )
}

/// Code that an entry point reaches over calls does something to a table of
/// the class.
pub open spec fn entry_does(
    space: SpaceView,
    sources: Seq<(Seq<char>, Seq<char>)>,
    entry: Seq<char>,
    class: Seq<char>,
    c: char,
) -> bool {
    exists|name: Seq<char>|
        is_reachable(call_edges(space.index, space.links), entry, name) && #[trigger] code_does(
            scene_of(space, sources),
            name,
            class,
            c,
        )
}

/// An operation of one letter is among the observations.
spec fn seen_of(seen: Seq<ObservationView>, class: Seq<char>, c: char) -> bool {
    has_operation(seen, class, seq![c])
}

proof fn lemma_seen_plus(a: Seq<ObservationView>, b: Seq<ObservationView>, class: Seq<char>, c: char)
    ensures
        seen_of(a + b, class, c) == (seen_of(a, class, c) || seen_of(b, class, c)),
{
    let all = a + b;
    if seen_of(a, class, c) {
        let i = choose|i: int| 0 <= i < a.len() && (#[trigger] a[i]).table == class && a[i].operation == seq![c];
        assert(all[i] == a[i]);
    }
    if seen_of(b, class, c) {
        let i = choose|i: int| 0 <= i < b.len() && (#[trigger] b[i]).table == class && b[i].operation == seq![c];
        assert(all[a.len() + i] == b[i]);
    }
    if seen_of(all, class, c) {
        let i = choose|i: int| 0 <= i < all.len() && (#[trigger] all[i]).table == class && all[i].operation == seq![c];
        if i < a.len() {
            assert(a[i] == all[i]);
        } else {
            assert(b[i - a.len()] == all[i]);
        }
    }
}

proof fn lemma_seen_push(a: Seq<ObservationView>, o: ObservationView, class: Seq<char>, c: char)
    ensures
        seen_of(a.push(o), class, c) == (seen_of(a, class, c) || o.table == class && o.operation == seq![c]),
{
    assert(a.push(o) =~= a + seq![o]);
    lemma_seen_plus(a, seq![o], class, c);
    if o.table == class && o.operation == seq![c] {
        assert(seq![o][0] == o);
    }
}

proof fn lemma_letters(a: char, b: char)
    ensures
        seq![a] == seq![b] <==> a == b,
{
    if seq![a] == seq![b] {
        assert(seq![a][0] == seq![b][0]);
    }
}

proof fn lemma_sql_line(line: Seq<char>, tables: Seq<TableView>, evidence: Seq<char>, n: int, class: Seq<char>, c: char)
    requires
        0 <= n <= tables.len(),
    ensures
        seen_of(sql_of_line(line, tables, evidence, n), class, c) <==> line_does(line, tables.take(n), class, c),
    decreases n,
{
    let some = tables.take(n);
    if n > 0 {
        lemma_sql_line(line, tables, evidence, n - 1, class, c);
        let fewer = tables.take(n - 1);
        let t = tables[n - 1];
        let access = access_of_table(uppercase(line), uppercase(t.table_name));
        if let Some(a) = access {
            let o = ObservationView { table: t.class_fqn, operation: seq![a.letter_spec()], evidence };
            lemma_seen_push(sql_of_line(line, tables, evidence, n - 1), o, class, c);
            lemma_letters(a.letter_spec(), c);
        }
        assert(some[n - 1] == t);
        if line_does(line, fewer, class, c) {
            let k = choose|k: int|
                0 <= k < fewer.len() && (#[trigger] fewer[k]).class_fqn == class && access_of_table(
                    uppercase(line),
                    uppercase(fewer[k].table_name),
                ) is Some && is_letter(c, access_of_table(uppercase(line), uppercase(fewer[k].table_name))->0);
            assert(some[k] == fewer[k]);
        }
        if line_does(line, some, class, c) {
            let k = choose|k: int|
                0 <= k < some.len() && (#[trigger] some[k]).class_fqn == class && access_of_table(
                    uppercase(line),
                    uppercase(some[k].table_name),
                ) is Some && is_letter(c, access_of_table(uppercase(line), uppercase(some[k].table_name))->0);
            if k < n - 1 {
                assert(some[k] == fewer[k]);
            }
        }
    }
}

proof fn lemma_sql_lines(body: Seq<Seq<char>>, tables: Seq<TableView>, evidence: Seq<char>, class: Seq<char>, c: char)
    ensures
        seen_of(sql_of_lines(body, tables, evidence), class, c) <==> lines_do(body, tables, class, c),
    decreases body.len(),
{
    if body.len() > 0 {
        let fewer = body.drop_last();
        lemma_sql_lines(fewer, tables, evidence, class, c);
        lemma_sql_line(body.last(), tables, evidence, tables.len() as int, class, c);
        assert(tables.take(tables.len() as int) =~= tables);
        lemma_seen_plus(
            sql_of_lines(fewer, tables, evidence),
            sql_of_line(body.last(), tables, evidence, tables.len() as int),
            class,
            c,
        );
        if lines_do(fewer, tables, class, c) {
            let i = choose|i: int| 0 <= i < fewer.len() && #[trigger] line_does(fewer[i], tables, class, c);
            assert(line_does(body[i], tables, class, c));
        }
        if line_does(body.last(), tables, class, c) {
            assert(line_does(body[body.len() - 1], tables, class, c));
        }
        if lines_do(body, tables, class, c) {
            let i = choose|i: int| 0 <= i < body.len() && #[trigger] line_does(body[i], tables, class, c);
            if i < fewer.len() {
                assert(line_does(fewer[i], tables, class, c));
            }
        }
    }
}

proof fn lemma_operations_on(table: Seq<char>, operations: Seq<char>, evidence: Seq<char>, class: Seq<char>, c: char)
    ensures
        seen_of(operations_on(table, operations, evidence), class, c) <==> table == class && operations.contains(c),
    decreases operations.len(),
{
    if operations.len() > 0 {
        let fewer = operations.drop_last();
        lemma_operations_on(table, fewer, evidence, class, c);
        let o = ObservationView { table, operation: seq![operations.last()], evidence };
        lemma_seen_push(operations_on(table, fewer, evidence), o, class, c);
        lemma_letters(operations.last(), c);
        assert(operations =~= fewer.push(operations.last()));
        lemma_push_contains(fewer, operations.last());
    }
}

proof fn lemma_operations_on_all(
    tables: Seq<TableView>,
    simple: Seq<char>,
    operations: Seq<char>,
    evidence: Seq<char>,
    n: int,
    class: Seq<char>,
    c: char,
)
    requires
        0 <= n <= tables.len(),
    ensures
        seen_of(operations_on_all(tables, simple, operations, evidence, n), class, c) <==> operations.contains(c) && exists|
            k: int,
        |
            0 <= k < n && (#[trigger] tables[k]).class_fqn == class && tables[k].simple == simple,
    decreases n,
{
    if n > 0 {
        lemma_operations_on_all(tables, simple, operations, evidence, n - 1, class, c);
        let t = tables[n - 1];
        lemma_operations_on(t.class_fqn, operations, evidence, class, c);
        lemma_seen_plus(
            operations_on_all(tables, simple, operations, evidence, n - 1),
            operations_on(t.class_fqn, operations, evidence),
            class,
            c,
        );
    }
}

proof fn lemma_repository_line(
    line: Seq<char>,
    bindings: Seq<(Seq<char>, Seq<char>)>,
    tables: Seq<TableView>,
    name: Seq<char>,
    n: int,
    class: Seq<char>,
    c: char,
)
    requires
        0 <= n <= bindings.len(),
    ensures
        seen_of(repository_of_line(line, bindings, tables, name, n), class, c) <==> line_calls(
            line,
            bindings.take(n),
            tables,
            class,
            c,
        ),
    decreases n,
{
    let some = bindings.take(n);
    if n > 0 {
        let fewer = bindings.take(n - 1);
        lemma_repository_line(line, bindings, tables, name, n - 1, class, c);
        let (var, simple) = bindings[n - 1];
        assert(some[n - 1] == bindings[n - 1]);
        if let Some(called) = called_on(line, var) {
            if let Some(operations) = operation_of(called) {
                let evidence = crate::query::crud::call_evidence(name, called);
                lemma_operations_on_all(tables, simple, operations, evidence, tables.len() as int, class, c);
                lemma_seen_plus(
                    repository_of_line(line, bindings, tables, name, n - 1),
                    operations_on_all(tables, simple, operations, evidence, tables.len() as int),
                    class,
                    c,
                );
            }
        }
        if line_calls(line, fewer, tables, class, c) {
            let (b, k) = choose|b: int, k: int|
                0 <= b < fewer.len() && 0 <= k < tables.len() && (#[trigger] tables[k]).class_fqn == class
                    && tables[k].simple == (#[trigger] fewer[b]).1 && called_on(line, fewer[b].0) is Some && operation_of(
                    called_on(line, fewer[b].0)->0,
                ) is Some && operation_of(called_on(line, fewer[b].0)->0)->0.contains(c);
            assert(some[b] == fewer[b]);
            assert(tables[k].class_fqn == class);
        }
        if line_calls(line, some, tables, class, c) {
            let (b, k) = choose|b: int, k: int|
                0 <= b < some.len() && 0 <= k < tables.len() && (#[trigger] tables[k]).class_fqn == class
                    && tables[k].simple == (#[trigger] some[b]).1 && called_on(line, some[b].0) is Some && operation_of(
                    called_on(line, some[b].0)->0,
                ) is Some && operation_of(called_on(line, some[b].0)->0)->0.contains(c);
            assert(tables[k].class_fqn == class);
            if b < n - 1 {
                assert(some[b] == fewer[b]);
            }
        }
    }
}

proof fn lemma_repository_lines(
    body: Seq<Seq<char>>,
    bindings: Seq<(Seq<char>, Seq<char>)>,
    tables: Seq<TableView>,
    name: Seq<char>,
    class: Seq<char>,
    c: char,
)
    ensures
        seen_of(repository_of_lines(body, bindings, tables, name), class, c) <==> lines_call(
            body,
            bindings,
            tables,
            class,
            c,
        ),
    decreases body.len(),
{
    if body.len() > 0 {
        let fewer = body.drop_last();
        lemma_repository_lines(fewer, bindings, tables, name, class, c);
        lemma_repository_line(body.last(), bindings, tables, name, bindings.len() as int, class, c);
        assert(bindings.take(bindings.len() as int) =~= bindings);
        lemma_seen_plus(
            repository_of_lines(fewer, bindings, tables, name),
            repository_of_line(body.last(), bindings, tables, name, bindings.len() as int),
            class,
            c,
        );
        if lines_call(fewer, bindings, tables, class, c) {
            let i = choose|i: int| 0 <= i < fewer.len() && #[trigger] line_calls(fewer[i], bindings, tables, class, c);
            assert(line_calls(body[i], bindings, tables, class, c));
        }
        if line_calls(body.last(), bindings, tables, class, c) {
            assert(line_calls(body[body.len() - 1], bindings, tables, class, c));
        }
        if lines_call(body, bindings, tables, class, c) {
            let i = choose|i: int| 0 <= i < body.len() && #[trigger] line_calls(body[i], bindings, tables, class, c);
            if i < fewer.len() {
                assert(line_calls(fewer[i], bindings, tables, class, c));
            }
        }
    }
}

proof fn lemma_observed_at(scene: Scene, name: Seq<char>, class: Seq<char>, c: char)
    ensures
        seen_of(observed_at(scene, name), class, c) <==> code_does(scene, name, class, c),
{
    let own = match last_named(scene.entities, name) {
        Some(i) => {
            let e = scene.entities[i];
            let body = lines_of_entity(e, scene.sources);
            let bindings = bindings_in_file(e.witness.file, scene.sources);
            lemma_sql_lines(body, scene.tables, name, class, c);
            lemma_repository_lines(body, bindings, scene.tables, name, class, c);
            lemma_seen_plus(
                sql_of_lines(body, scene.tables, name),
                repository_of_lines(body, bindings, scene.tables, name),
                class,
                c,
            );
            sql_of_lines(body, scene.tables, name) + repository_of_lines(body, bindings, scene.tables, name)
        },
        None => Seq::empty(),
    };
    if let Some(sql) = last_statement(scene.statements, name) {
        lemma_sql_lines(lines(sql), scene.tables, name + " (mapper XML)"@, class, c);
        lemma_seen_plus(own, sql_of_lines(lines(sql), scene.tables, name + " (mapper XML)"@), class, c);
    }
}

proof fn lemma_observed(scene: Scene, names: Seq<Seq<char>>, class: Seq<char>, c: char)
    ensures
        seen_of(observed(scene, names), class, c) <==> exists|name: Seq<char>|
            names.contains(name) && #[trigger] code_does(scene, name, class, c),
    decreases names.len(),
{
    if names.len() > 0 {
        let fewer = names.drop_last();
        lemma_observed(scene, fewer, class, c);
        lemma_observed_at(scene, names.last(), class, c);
        lemma_seen_plus(observed(scene, fewer), observed_at(scene, names.last()), class, c);
        assert(names =~= fewer.push(names.last()));
        lemma_push_contains(fewer, names.last());
        if exists|name: Seq<char>| fewer.contains(name) && #[trigger] code_does(scene, name, class, c) {
            let name = choose|name: Seq<char>| fewer.contains(name) && #[trigger] code_does(scene, name, class, c);
            assert(names.contains(name) && code_does(scene, name, class, c));
        }
        if exists|name: Seq<char>| names.contains(name) && #[trigger] code_does(scene, name, class, c) {
            let name = choose|name: Seq<char>| names.contains(name) && #[trigger] code_does(scene, name, class, c);
            if name != names.last() {
                assert(fewer.contains(name) && code_does(scene, name, class, c));
            }
        }
    }
}

proof fn lemma_entry_seen(
    space: SpaceView,
    sources: Seq<(Seq<char>, Seq<char>)>,
    entry: Seq<char>,
    class: Seq<char>,
    c: char,
)
    ensures
        seen_of(
            observed(scene_of(space, sources), reached(call_edges(space.index, space.links), entry)),
            class,
            c,
        ) <==> entry_does(space, sources, entry, class, c),
{
    let scene = scene_of(space, sources);
    let edges = call_edges(space.index, space.links);
    let names = reached(edges, entry);
    lemma_observed(scene, names, class, c);
    assert forall|name: Seq<char>| #[trigger] names.contains(name) <==> is_reachable(edges, entry, name) by {
        law_reached(edges, entry, name);
    }
    if entry_does(space, sources, entry, class, c) {
        let name = choose|name: Seq<char>|
            is_reachable(edges, entry, name) && #[trigger] code_does(scene, name, class, c);
        assert(names.contains(name) && code_does(scene, name, class, c));
    }
}

proof fn lemma_evidence(seen: Seq<ObservationView>, class: Seq<char>)
    ensures
        evidence_seen(seen, class).len() == 0 <==> forall|i: int|
            0 <= i < seen.len() ==> (#[trigger] seen[i]).table != class,
    decreases seen.len(),
{
    if seen.len() > 0 {
        let fewer = seen.drop_last();
        lemma_evidence(fewer, class);
        assert forall|i: int| 0 <= i < fewer.len() implies fewer[i] == #[trigger] seen[i] by {}
        if seen.last().table == class {
            let before = evidence_seen(fewer, class);
            if before.contains(seen.last().evidence) {
                assert(before.len() > 0);
            }
            assert(seen[seen.len() - 1].table == class);
        } else if forall|i: int| 0 <= i < fewer.len() ==> (#[trigger] fewer[i]).table != class {
            assert forall|i: int| 0 <= i < seen.len() implies (#[trigger] seen[i]).table != class by {
                if i < fewer.len() {
                    assert(fewer[i].table != class);
                }
            }
        } else {
            let i = choose|i: int| 0 <= i < fewer.len() && (#[trigger] fewer[i]).table == class;
            assert(seen[i].table == class);
        }
    }
}

proof fn lemma_operations_seen(seen: Seq<ObservationView>, class: Seq<char>)
    ensures
        forall|c: char| #[trigger]
            operations_seen(seen, class).contains(c) <==> seen_of(seen, class, c) && "CRUD"@.contains(c),
        operations_seen(seen, class) == "CRUD"@.filter(|c: char| seen_of(seen, class, c)),
{
    reveal_strlit("C");
    reveal_strlit("R");
    reveal_strlit("U");
    reveal_strlit("D");
    reveal_strlit("CRUD");
    let ops = operations_seen(seen, class);
    let p = |c: char| seen_of(seen, class, c);
    assert("C"@ =~= seq!['C'] && "R"@ =~= seq!['R'] && "U"@ =~= seq!['U'] && "D"@ =~= seq!['D']);
    let all = "CRUD"@;
    assert(all =~= seq!['C', 'R', 'U', 'D']);
    assert(all.drop_last() =~= seq!['C', 'R', 'U']);
    assert(all.drop_last().drop_last() =~= seq!['C', 'R']);
    assert(all.drop_last().drop_last().drop_last() =~= seq!['C']);
    assert(all.drop_last().drop_last().drop_last().drop_last() =~= Seq::empty());
    reveal(Seq::filter);
    assert(Seq::<char>::empty().filter(p) =~= Seq::empty());
    let f1 = seq!['C'].filter(p);
    assert(seq!['C'].drop_last() =~= Seq::empty());
    assert(f1 =~= if p('C') {
        seq!['C']
    } else {
        Seq::empty()
    });
    let f2 = seq!['C', 'R'].filter(p);
    assert(seq!['C', 'R'].drop_last() =~= seq!['C']);
    assert(f2 =~= f1 + if p('R') {
        seq!['R']
    } else {
        Seq::empty()
    });
    let f3 = seq!['C', 'R', 'U'].filter(p);
    assert(seq!['C', 'R', 'U'].drop_last() =~= seq!['C', 'R']);
    assert(f3 =~= f2 + if p('U') {
        seq!['U']
    } else {
        Seq::empty()
    });
    let f4 = all.filter(p);
    assert(f4 =~= f3 + if p('D') {
        seq!['D']
    } else {
        Seq::empty()
    });
    assert(ops =~= f4);
    crate::seqs::lemma_filter_contains(all, p);
    assert forall|c: char| #[trigger] ops.contains(c) <==> seen_of(seen, class, c) && "CRUD"@.contains(c) by {
        assert(p(c) == seen_of(seen, class, c));
    }
}

/// An entry says what its entry point does.
spec fn entry_fits(
    entry: CrudEntryView,
    table: Seq<char>,
    entries: Seq<Seq<char>>,
    seen: Seq<Seq<ObservationView>>,
    k: int,
) -> bool {
    entry.entry_point == entries[k] && entry.operations == operations_seen(seen[k], table) && evidence_seen(
        seen[k],
        table,
    ).len() > 0 && 1 <= entry.evidence.len() <= 5
}

proof fn lemma_some_evidence(seen: Seq<ObservationView>, table: Seq<char>)
    requires
        evidence_seen(seen, table).len() > 0,
    ensures
        1 <= first_five(stable_sorted(evidence_seen(seen, table), by_text())).len() <= 5,
{
    lemma_stable_sorted(evidence_seen(seen, table), by_text());
}

proof fn lemma_entries(
    table: Seq<char>,
    entries: Seq<Seq<char>>,
    seen: Seq<Seq<ObservationView>>,
    n: int,
    e: int,
) -> (k: int)
    requires
        0 <= n <= entries.len(),
        0 <= e < entries_of(table, entries, seen, n).len(),
    ensures
        0 <= k < n,
        entry_fits(entries_of(table, entries, seen, n)[e], table, entries, seen, k),
    decreases n,
{
    if n > 0 {
        let before = entries_of(table, entries, seen, n - 1);
        if e < before.len() {
            lemma_entries(table, entries, seen, n - 1, e)
        } else {
            lemma_some_evidence(seen[n - 1], table);
            n - 1
        }
    } else {
        0
    }
}

proof fn lemma_entry_of(
    table: Seq<char>,
    entries: Seq<Seq<char>>,
    seen: Seq<Seq<ObservationView>>,
    n: int,
    k: int,
) -> (e: int)
    requires
        0 <= k < n <= entries.len(),
        evidence_seen(seen[k], table).len() > 0,
    ensures
        0 <= e < entries_of(table, entries, seen, n).len(),
        entry_fits(entries_of(table, entries, seen, n)[e], table, entries, seen, k),
    decreases n,
{
    let before = entries_of(table, entries, seen, n - 1);
    if k < n - 1 {
        let e = lemma_entry_of(table, entries, seen, n - 1, k);
        assert(entries_of(table, entries, seen, n)[e] == before[e]);
        e
    } else {
        lemma_some_evidence(seen[n - 1], table);
        before.len() as int
    }
}

/// A row shows a table.
spec fn row_fits(
    row: TableCrudView,
    table: TableView,
    entries: Seq<Seq<char>>,
    seen: Seq<Seq<ObservationView>>,
) -> bool {
    row.table_class == table.class_fqn && row.table_name == table.table_name && row.entries == entries_of(
        table.class_fqn,
        entries,
        seen,
        entries.len() as int,
    ) && row.entries.len() > 0
}

proof fn lemma_rows(
    tables: Seq<TableView>,
    entries: Seq<Seq<char>>,
    seen: Seq<Seq<ObservationView>>,
    n: int,
    t: int,
) -> (k: int)
    requires
        0 <= n <= tables.len(),
        0 <= t < matrix_rows(tables, entries, seen, n).len(),
    ensures
        0 <= k < n,
        row_fits(matrix_rows(tables, entries, seen, n)[t], tables[k], entries, seen),
    decreases n,
{
    if n > 0 {
        let before = matrix_rows(tables, entries, seen, n - 1);
        if t < before.len() {
            lemma_rows(tables, entries, seen, n - 1, t)
        } else {
            n - 1
        }
    } else {
        0
    }
}

proof fn lemma_row_of(
    tables: Seq<TableView>,
    entries: Seq<Seq<char>>,
    seen: Seq<Seq<ObservationView>>,
    n: int,
    k: int,
) -> (t: int)
    requires
        0 <= k < n <= tables.len(),
        entries_of(tables[k].class_fqn, entries, seen, entries.len() as int).len() > 0,
    ensures
        0 <= t < matrix_rows(tables, entries, seen, n).len(),
        row_fits(matrix_rows(tables, entries, seen, n)[t], tables[k], entries, seen),
    decreases n,
{
    let before = matrix_rows(tables, entries, seen, n - 1);
    if k < n - 1 {
        let t = lemma_row_of(tables, entries, seen, n - 1, k);
        assert(matrix_rows(tables, entries, seen, n)[t] == before[t]);
        t
    } else {
        before.len() as int
    }
}

/// Something with a name calls the name.
pub open spec fn is_called(space: SpaceView, name: Seq<char>) -> bool {
    exists|k: int|
        0 <= k < space.links.len() && (#[trigger] space.links[k]).relation == "java.calls"@ && name_of(
            space.index,
            space.links[k].from,
        ) is Some && name_of(space.index, space.links[k].to) == Some(name)
}

/// The name is that of a method that nothing calls and that is no accessor.
pub open spec fn is_entry_point(space: SpaceView, name: Seq<char>) -> bool {
    !is_called(space, name) && exists|i: int|
        0 <= i < space.entities.len() && (#[trigger] space.entities[i]).fqn == name && space.entities[i].entity_type
            == JavaEntityType::Method && !accessor_name(space.entities[i].label)
}

proof fn lemma_called(index: Seq<(Seq<char>, Seq<char>)>, links: Seq<LinkView>, name: Seq<char>)
    ensures
        called_names(index, links).contains(name) <==> exists|k: int|
            0 <= k < links.len() && (#[trigger] links[k]).relation == "java.calls"@ && name_of(index, links[k].from) is Some
                && name_of(index, links[k].to) == Some(name),
    decreases links.len(),
{
    if links.len() > 0 {
        let fewer = links.drop_last();
        lemma_called(index, fewer, name);
        let before = called_names(index, fewer);
        let l = links.last();
        if let (Some(_), Some(to)) = (name_of(index, l.from), name_of(index, l.to)) {
            lemma_push_contains(before, to);
        }
        assert forall|k: int| 0 <= k < fewer.len() implies fewer[k] == #[trigger] links[k] by {}
        if exists|k: int|
            0 <= k < fewer.len() && (#[trigger] fewer[k]).relation == "java.calls"@ && name_of(index, fewer[k].from) is Some
                && name_of(index, fewer[k].to) == Some(name) {
            let k = choose|k: int|
                0 <= k < fewer.len() && (#[trigger] fewer[k]).relation == "java.calls"@ && name_of(
                    index,
                    fewer[k].from,
                ) is Some && name_of(index, fewer[k].to) == Some(name);
            assert(links[k].relation == "java.calls"@);
        }
        assert(links[links.len() - 1] == l);
        if exists|k: int|
            0 <= k < links.len() && (#[trigger] links[k]).relation == "java.calls"@ && name_of(index, links[k].from) is Some
                && name_of(index, links[k].to) == Some(name) {
            let k = choose|k: int|
                0 <= k < links.len() && (#[trigger] links[k]).relation == "java.calls"@ && name_of(
                    index,
                    links[k].from,
                ) is Some && name_of(index, links[k].to) == Some(name);
            if k < fewer.len() {
                assert(fewer[k].relation == "java.calls"@);
            }
        }
    }
}

proof fn lemma_entry_names(entities: Seq<EntityView>, called: Seq<Seq<char>>, name: Seq<char>)
    ensures
        entry_names(entities, called).contains(name) <==> !called.contains(name) && exists|i: int|
            0 <= i < entities.len() && (#[trigger] entities[i]).fqn == name && entities[i].entity_type
                == JavaEntityType::Method && !accessor_name(entities[i].label),
    decreases entities.len(),
{
    if entities.len() > 0 {
        let fewer = entities.drop_last();
        lemma_entry_names(fewer, called, name);
        let before = entry_names(fewer, called);
        let e = entities.last();
        lemma_push_contains(before, e.fqn);
        assert forall|k: int| 0 <= k < fewer.len() implies fewer[k] == #[trigger] entities[k] by {}
        assert(entities[entities.len() - 1] == e);
        if exists|i: int|
            0 <= i < fewer.len() && (#[trigger] fewer[i]).fqn == name && fewer[i].entity_type == JavaEntityType::Method
                && !accessor_name(fewer[i].label) {
            let i = choose|i: int|
                0 <= i < fewer.len() && (#[trigger] fewer[i]).fqn == name && fewer[i].entity_type
                    == JavaEntityType::Method && !accessor_name(fewer[i].label);
            assert(entities[i].fqn == name);
        }
        if exists|i: int|
            0 <= i < entities.len() && (#[trigger] entities[i]).fqn == name && entities[i].entity_type
                == JavaEntityType::Method && !accessor_name(entities[i].label) {
            let i = choose|i: int|
                0 <= i < entities.len() && (#[trigger] entities[i]).fqn == name && entities[i].entity_type
                    == JavaEntityType::Method && !accessor_name(entities[i].label);
            if i < fewer.len() {
                assert(fewer[i].fqn == name);
            }
        }
    }
}

proof fn lemma_entry_points(space: SpaceView, name: Seq<char>)
    ensures
        stable_sorted(
            entry_names(space.entities, called_names(space.index, space.links)),
            by_text(),
        ).contains(name) <==> is_entry_point(space, name),
{
    let called = called_names(space.index, space.links);
    lemma_called(space.index, space.links, name);
    lemma_entry_names(space.entities, called, name);
    lemma_stable_sorted_contains(entry_names(space.entities, called), by_text());
}

/// An entry of the matrix lists, in the order of `CRUD`, exactly what the code
/// that the entry point reaches over calls does to the table; entry points are
/// methods that nothing calls and that are no accessors.
pub proof fn law_operations(
    space: SpaceView,
    sources: Seq<(Seq<char>, Seq<char>)>,
    r: CrudMatrixResultView,
    t: int,
    e: int,
)
    requires
        crud_of(space, sources) == Ok::<CrudMatrixResultView, Seq<char>>(r),
        0 <= t < r.tables.len(),
        0 <= e < r.tables[t].entries.len(),
    ensures
        r.tables[t].entries[e].operations == "CRUD"@.filter(
            |c: char| entry_does(space, sources, r.tables[t].entries[e].entry_point, r.tables[t].table_class, c),
        ),
        forall|c: char| #[trigger]
            r.tables[t].entries[e].operations.contains(c) <==> "CRUD"@.contains(c) && entry_does(
                space,
                sources,
                r.tables[t].entries[e].entry_point,
                r.tables[t].table_class,
                c,
            ),
        is_entry_point(space, r.tables[t].entries[e].entry_point),
        1 <= r.tables[t].entries[e].evidence.len() <= 5,
{
    let scene = scene_of(space, sources);
    let edges = call_edges(space.index, space.links);
    let entries = stable_sorted(entry_names(space.entities, called_names(space.index, space.links)), by_text());
    let seen = entries.map_values(|e: Seq<char>| observed(scene, reached(edges, e)));
    let row = r.tables[t];
    let entry = row.entries[e];
    let class = row.table_class;
    let shown = lemma_rows(scene.tables, entries, seen, scene.tables.len() as int, t);
    let k = lemma_entries(class, entries, seen, entries.len() as int, e);
    assert(entries.contains(entries[k]));
    lemma_entry_points(space, entries[k]);
    assert(seen[k] == observed(scene, reached(edges, entries[k])));
    lemma_operations_seen(seen[k], class);
    let p = |c: char| seen_of(seen[k], class, c);
    let q = |c: char| entry_does(space, sources, entry.entry_point, class, c);
    assert forall|c: char| #[trigger] p(c) == q(c) by {
        lemma_entry_seen(space, sources, entries[k], class, c);
    }
    assert(p =~= q);
    assert forall|c: char| #[trigger] entry.operations.contains(c) <==> "CRUD"@.contains(c) && entry_does(
        space,
        sources,
        entry.entry_point,
        class,
        c,
    ) by {
        lemma_entry_seen(space, sources, entries[k], class, c);
    }
}

/// Whatever the code that an entry point reaches does to a table is in the
/// matrix.
pub proof fn law_operation_is_listed(
    space: SpaceView,
    sources: Seq<(Seq<char>, Seq<char>)>,
    entry: Seq<char>,
    n: int,
    c: char,
)
    requires
        is_entry_point(space, entry),
        0 <= n < scene_of(space, sources).tables.len(),
        "CRUD"@.contains(c),
        entry_does(space, sources, entry, scene_of(space, sources).tables[n].class_fqn, c),
    ensures
        crud_of(space, sources) matches Ok(r) && exists|t: int, e: int|
            0 <= t < r.tables.len() && 0 <= e < r.tables[t].entries.len() && r.tables[t].table_class == scene_of(
                space,
                sources,
            ).tables[n].class_fqn && (#[trigger] r.tables[t].entries[e]).entry_point == entry
                && r.tables[t].entries[e].operations.contains(c),
{
    let scene = scene_of(space, sources);
    let edges = call_edges(space.index, space.links);
    let entries = stable_sorted(entry_names(space.entities, called_names(space.index, space.links)), by_text());
    let seen = entries.map_values(|e: Seq<char>| observed(scene, reached(edges, e)));
    let class = scene.tables[n].class_fqn;
    lemma_entry_points(space, entry);
    let k = choose|k: int| 0 <= k < entries.len() && entries[k] == entry;
    assert(seen[k] == observed(scene, reached(edges, entry)));
    lemma_entry_seen(space, sources, entry, class, c);
    let i = choose|i: int|
        0 <= i < seen[k].len() && (#[trigger] seen[k][i]).table == class && seen[k][i].operation == seq![c];
    lemma_evidence(seen[k], class);
    let own = entries_of(class, entries, seen, entries.len() as int);
    let e = lemma_entry_of(class, entries, seen, entries.len() as int, k);
    lemma_operations_seen(seen[k], class);
    assert(operations_seen(seen[k], class).contains(c));
    let rows = matrix_rows(scene.tables, entries, seen, scene.tables.len() as int);
    let t = lemma_row_of(scene.tables, entries, seen, scene.tables.len() as int, n);
    let r = crud_of(space, sources)->Ok_0;
    assert(r.tables == rows);
    assert(r.tables[t].entries[e].entry_point == entry);
}

/// One name calls or constructs another exactly when a relation says so.
pub proof fn law_call_edges(space: SpaceView, from: Seq<char>, to: Seq<char>)
    ensures
        call_edges(space.index, space.links).contains((from, to)) <==> exists|k: int|
            0 <= k < space.links.len() && ((#[trigger] space.links[k]).relation == "java.calls"@
                || space.links[k].relation == "java.constructs"@) && name_of(space.index, space.links[k].from) == Some(
                from,
            ) && name_of(space.index, space.links[k].to) == Some(to),
{
    lemma_call_edges(space.index, space.links, from, to);
}

proof fn lemma_call_edges(index: Seq<(Seq<char>, Seq<char>)>, links: Seq<LinkView>, from: Seq<char>, to: Seq<char>)
    ensures
        call_edges(index, links).contains((from, to)) <==> exists|k: int|
            0 <= k < links.len() && ((#[trigger] links[k]).relation == "java.calls"@ || links[k].relation
                == "java.constructs"@) && name_of(index, links[k].from) == Some(from) && name_of(index, links[k].to)
                == Some(to),
    decreases links.len(),
{
    if links.len() > 0 {
        let fewer = links.drop_last();
        lemma_call_edges(index, fewer, from, to);
        let before = call_edges(index, fewer);
        let l = links.last();
        if let (Some(a), Some(b)) = (name_of(index, l.from), name_of(index, l.to)) {
            lemma_push_contains(before, (a, b));
        }
        assert forall|k: int| 0 <= k < fewer.len() implies fewer[k] == #[trigger] links[k] by {}
        assert(links[links.len() - 1] == l);
        if exists|k: int|
            0 <= k < fewer.len() && ((#[trigger] fewer[k]).relation == "java.calls"@ || fewer[k].relation
                == "java.constructs"@) && name_of(index, fewer[k].from) == Some(from) && name_of(index, fewer[k].to)
                == Some(to) {
            let k = choose|k: int|
                0 <= k < fewer.len() && ((#[trigger] fewer[k]).relation == "java.calls"@ || fewer[k].relation
                    == "java.constructs"@) && name_of(index, fewer[k].from) == Some(from) && name_of(
                    index,
                    fewer[k].to,
                ) == Some(to);
            assert(name_of(index, links[k].from) == Some(from));
        }
        if exists|k: int|
            0 <= k < links.len() && ((#[trigger] links[k]).relation == "java.calls"@ || links[k].relation
                == "java.constructs"@) && name_of(index, links[k].from) == Some(from) && name_of(index, links[k].to)
                == Some(to) {
            let k = choose|k: int|
                0 <= k < links.len() && ((#[trigger] links[k]).relation == "java.calls"@ || links[k].relation
                    == "java.constructs"@) && name_of(index, links[k].from) == Some(from) && name_of(
                    index,
                    links[k].to,
                ) == Some(to);
            if k < fewer.len() {
                assert(name_of(index, fewer[k].from) == Some(from));
            }
        }
    }
}

/// A class has a table when it has a field and, as methods, only accessors, or
/// when a SQL source creates its table.
pub proof fn law_table_classes(space: SpaceView, sources: Seq<(Seq<char>, Seq<char>)>, table: TableView)
    ensures
        scene_of(space, sources).tables.contains(table) <==> exists|i: int|
            0 <= i < space.entities.len() && table == table_of(#[trigger] space.entities[i], sources)
                && space.entities[i].entity_type == JavaEntityType::Class && ({
                ||| (exists|m: int|
                    0 <= m < space.entities.len() && begins(
                        (#[trigger] space.entities[m]).fqn,
                        space.entities[i].fqn + "."@,
                    ) && space.entities[m].entity_type == JavaEntityType::Field) && (forall|m: int|
                    0 <= m < space.entities.len() && begins(
                        (#[trigger] space.entities[m]).fqn,
                        space.entities[i].fqn + "."@,
                    ) && space.entities[m].entity_type == JavaEntityType::Method ==> accessor_name(
                        space.entities[m].label,
                    ))
                ||| exists|c: int|
                    0 <= c < created_names(sources).len() && uppercase(#[trigger] created_names(sources)[c]) == uppercase(
                        table.table_name,
                    )
            }),
{
    lemma_tables(space.entities, space.entities, sources, table);
    assert forall|i: int| 0 <= i < space.entities.len() implies #[trigger] is_data_class(
        space.entities[i],
        space.entities,
        sources,
    ) == (space.entities[i].entity_type == JavaEntityType::Class && ({
        ||| (exists|m: int|
            0 <= m < space.entities.len() && begins(
                (#[trigger] space.entities[m]).fqn,
                space.entities[i].fqn + "."@,
            ) && space.entities[m].entity_type == JavaEntityType::Field) && (forall|m: int|
            0 <= m < space.entities.len() && begins(
                (#[trigger] space.entities[m]).fqn,
                space.entities[i].fqn + "."@,
            ) && space.entities[m].entity_type == JavaEntityType::Method ==> accessor_name(space.entities[m].label))
        ||| exists|c: int|
            0 <= c < created_names(sources).len() && uppercase(#[trigger] created_names(sources)[c]) == uppercase(
                table_of(space.entities[i], sources).table_name,
            )
    })) by {}
    if scene_of(space, sources).tables.contains(table) {
        let i = choose|i: int|
            0 <= i < space.entities.len() && table == table_of(#[trigger] space.entities[i], sources) && is_data_class(
                space.entities[i],
                space.entities,
                sources,
            );
        assert(table == table_of(space.entities[i], sources));
        assert(is_data_class(space.entities[i], space.entities, sources));
    }
}

proof fn lemma_tables(
    entities: Seq<EntityView>,
    all: Seq<EntityView>,
    sources: Seq<(Seq<char>, Seq<char>)>,
    table: TableView,
)
    ensures
        tables_among(entities, all, sources).contains(table) <==> exists|i: int|
            0 <= i < entities.len() && table == table_of(#[trigger] entities[i], sources) && is_data_class(
                entities[i],
                all,
                sources,
            ),
    decreases entities.len(),
{
    if entities.len() > 0 {
        let fewer = entities.drop_last();
        lemma_tables(fewer, all, sources, table);
        lemma_push_contains(tables_among(fewer, all, sources), table_of(entities.last(), sources));
        assert forall|k: int| 0 <= k < fewer.len() implies fewer[k] == #[trigger] entities[k] by {}
        assert(entities[entities.len() - 1] == entities.last());
        if exists|i: int|
            0 <= i < fewer.len() && table == table_of(#[trigger] fewer[i], sources) && is_data_class(
                fewer[i],
                all,
                sources,
            ) {
            let i = choose|i: int|
                0 <= i < fewer.len() && table == table_of(#[trigger] fewer[i], sources) && is_data_class(
                    fewer[i],
                    all,
                    sources,
                );
            assert(table == table_of(entities[i], sources));
        }
        if exists|i: int|
            0 <= i < entities.len() && table == table_of(#[trigger] entities[i], sources) && is_data_class(
                entities[i],
                all,
                sources,
            ) {
            let i = choose|i: int|
                0 <= i < entities.len() && table == table_of(#[trigger] entities[i], sources) && is_data_class(
                    entities[i],
                    all,
                    sources,
                );
            if i < fewer.len() {
                assert(table == table_of(fewer[i], sources));
            }
        }
    }
}

proof fn lemma_not_begins(s: Seq<char>, prefix: Seq<char>, i: int)
    requires
        0 <= i < prefix.len(),
        i < s.len() ==> s[i] != prefix[i],
    ensures
        !begins(s, prefix),
{
    if begins(s, prefix) {
        assert(s.subrange(0, prefix.len() as int)[i] == s[i]);
    }
}

proof fn lemma_begins(prefix: Seq<char>, rest: Seq<char>)
    ensures
        begins(prefix + rest, prefix),
{
    assert((prefix + rest).subrange(0, prefix.len() as int) =~= prefix);
}

/// What the names of repository methods stand for.
pub proof fn law_repository_operations(rest: Seq<char>)
    ensures
        operation_of("save"@ + rest) == Some("CU"@),
        operation_of("insert"@ + rest) == Some("C"@),
        operation_of("create"@ + rest) == Some("C"@),
        operation_of("add"@ + rest) == Some("C"@),
        operation_of("persist"@ + rest) == Some("C"@),
        operation_of("find"@ + rest) == Some("R"@),
        operation_of("get"@ + rest) == Some("R"@),
        operation_of("read"@ + rest) == Some("R"@),
        operation_of("query"@ + rest) == Some("R"@),
        operation_of("search"@ + rest) == Some("R"@),
        operation_of("select"@ + rest) == Some("R"@),
        operation_of("list"@ + rest) == Some("R"@),
        operation_of("load"@ + rest) == Some("R"@),
        operation_of("count"@ + rest) == Some("R"@),
        operation_of("exists"@ + rest) == Some("R"@),
        operation_of("update"@ + rest) == Some("U"@),
        operation_of("delete"@ + rest) == Some("D"@),
        operation_of("remove"@ + rest) == Some("D"@),
{
    reveal_strlit("save");
    reveal_strlit("insert");
    reveal_strlit("create");
    reveal_strlit("add");
    reveal_strlit("persist");
    reveal_strlit("find");
    reveal_strlit("get");
    reveal_strlit("read");
    reveal_strlit("query");
    reveal_strlit("search");
    reveal_strlit("select");
    reveal_strlit("list");
    reveal_strlit("load");
    reveal_strlit("count");
    reveal_strlit("exists");
    reveal_strlit("update");
    reveal_strlit("delete");
    reveal_strlit("remove");
    lemma_begins("save"@, rest);
    lemma_begins("insert"@, rest);
    lemma_not_begins("insert"@ + rest, "save"@, 0);
    lemma_begins("create"@, rest);
    lemma_not_begins("create"@ + rest, "save"@, 0);
    lemma_begins("add"@, rest);
    lemma_not_begins("add"@ + rest, "save"@, 0);
    lemma_begins("persist"@, rest);
    lemma_not_begins("persist"@ + rest, "save"@, 0);
    lemma_begins("find"@, rest);
    lemma_not_begins("find"@ + rest, "save"@, 0);
    lemma_not_begins("find"@ + rest, "insert"@, 0);
    lemma_not_begins("find"@ + rest, "create"@, 0);
    lemma_not_begins("find"@ + rest, "add"@, 0);
    lemma_not_begins("find"@ + rest, "persist"@, 0);
    lemma_begins("get"@, rest);
    lemma_not_begins("get"@ + rest, "save"@, 0);
    lemma_not_begins("get"@ + rest, "insert"@, 0);
    lemma_not_begins("get"@ + rest, "create"@, 0);
    lemma_not_begins("get"@ + rest, "add"@, 0);
    lemma_not_begins("get"@ + rest, "persist"@, 0);
    lemma_begins("read"@, rest);
    lemma_not_begins("read"@ + rest, "save"@, 0);
    lemma_not_begins("read"@ + rest, "insert"@, 0);
    lemma_not_begins("read"@ + rest, "create"@, 0);
    lemma_not_begins("read"@ + rest, "add"@, 0);
    lemma_not_begins("read"@ + rest, "persist"@, 0);
    lemma_begins("query"@, rest);
    lemma_not_begins("query"@ + rest, "save"@, 0);
    lemma_not_begins("query"@ + rest, "insert"@, 0);
    lemma_not_begins("query"@ + rest, "create"@, 0);
    lemma_not_begins("query"@ + rest, "add"@, 0);
    lemma_not_begins("query"@ + rest, "persist"@, 0);
    lemma_begins("search"@, rest);
    lemma_not_begins("search"@ + rest, "save"@, 1);
    lemma_not_begins("search"@ + rest, "insert"@, 0);
    lemma_not_begins("search"@ + rest, "create"@, 0);
    lemma_not_begins("search"@ + rest, "add"@, 0);
    lemma_not_begins("search"@ + rest, "persist"@, 0);
    lemma_begins("select"@, rest);
    lemma_not_begins("select"@ + rest, "save"@, 1);
    lemma_not_begins("select"@ + rest, "insert"@, 0);
    lemma_not_begins("select"@ + rest, "create"@, 0);
    lemma_not_begins("select"@ + rest, "add"@, 0);
    lemma_not_begins("select"@ + rest, "persist"@, 0);
    lemma_begins("list"@, rest);
    lemma_not_begins("list"@ + rest, "save"@, 0);
    lemma_not_begins("list"@ + rest, "insert"@, 0);
    lemma_not_begins("list"@ + rest, "create"@, 0);
    lemma_not_begins("list"@ + rest, "add"@, 0);
    lemma_not_begins("list"@ + rest, "persist"@, 0);
    lemma_begins("load"@, rest);
    lemma_not_begins("load"@ + rest, "save"@, 0);
    lemma_not_begins("load"@ + rest, "insert"@, 0);
    lemma_not_begins("load"@ + rest, "create"@, 0);
    lemma_not_begins("load"@ + rest, "add"@, 0);
    lemma_not_begins("load"@ + rest, "persist"@, 0);
    lemma_begins("count"@, rest);
    lemma_not_begins("count"@ + rest, "save"@, 0);
    lemma_not_begins("count"@ + rest, "insert"@, 0);
    lemma_not_begins("count"@ + rest, "create"@, 1);
    lemma_not_begins("count"@ + rest, "add"@, 0);
    lemma_not_begins("count"@ + rest, "persist"@, 0);
    lemma_begins("exists"@, rest);
    lemma_not_begins("exists"@ + rest, "save"@, 0);
    lemma_not_begins("exists"@ + rest, "insert"@, 0);
    lemma_not_begins("exists"@ + rest, "create"@, 0);
    lemma_not_begins("exists"@ + rest, "add"@, 0);
    lemma_not_begins("exists"@ + rest, "persist"@, 0);
    lemma_begins("update"@, rest);
    lemma_not_begins("update"@ + rest, "save"@, 0);
    lemma_not_begins("update"@ + rest, "insert"@, 0);
    lemma_not_begins("update"@ + rest, "create"@, 0);
    lemma_not_begins("update"@ + rest, "add"@, 0);
    lemma_not_begins("update"@ + rest, "persist"@, 0);
    lemma_not_begins("update"@ + rest, "find"@, 0);
    lemma_not_begins("update"@ + rest, "get"@, 0);
    lemma_not_begins("update"@ + rest, "read"@, 0);
    lemma_not_begins("update"@ + rest, "query"@, 0);
    lemma_not_begins("update"@ + rest, "search"@, 0);
    lemma_not_begins("update"@ + rest, "select"@, 0);
    lemma_not_begins("update"@ + rest, "list"@, 0);
    lemma_not_begins("update"@ + rest, "load"@, 0);
    lemma_not_begins("update"@ + rest, "count"@, 0);
    lemma_not_begins("update"@ + rest, "exists"@, 0);
    lemma_begins("delete"@, rest);
    lemma_not_begins("delete"@ + rest, "save"@, 0);
    lemma_not_begins("delete"@ + rest, "insert"@, 0);
    lemma_not_begins("delete"@ + rest, "create"@, 0);
    lemma_not_begins("delete"@ + rest, "add"@, 0);
    lemma_not_begins("delete"@ + rest, "persist"@, 0);
    lemma_not_begins("delete"@ + rest, "find"@, 0);
    lemma_not_begins("delete"@ + rest, "get"@, 0);
    lemma_not_begins("delete"@ + rest, "read"@, 0);
    lemma_not_begins("delete"@ + rest, "query"@, 0);
    lemma_not_begins("delete"@ + rest, "search"@, 0);
    lemma_not_begins("delete"@ + rest, "select"@, 0);
    lemma_not_begins("delete"@ + rest, "list"@, 0);
    lemma_not_begins("delete"@ + rest, "load"@, 0);
    lemma_not_begins("delete"@ + rest, "count"@, 0);
    lemma_not_begins("delete"@ + rest, "exists"@, 0);
    lemma_not_begins("delete"@ + rest, "update"@, 0);
    lemma_begins("remove"@, rest);
    lemma_not_begins("remove"@ + rest, "save"@, 0);
    lemma_not_begins("remove"@ + rest, "insert"@, 0);
    lemma_not_begins("remove"@ + rest, "create"@, 0);
    lemma_not_begins("remove"@ + rest, "add"@, 0);
    lemma_not_begins("remove"@ + rest, "persist"@, 0);
    lemma_not_begins("remove"@ + rest, "find"@, 0);
    lemma_not_begins("remove"@ + rest, "get"@, 0);
    lemma_not_begins("remove"@ + rest, "read"@, 2);
    lemma_not_begins("remove"@ + rest, "query"@, 0);
    lemma_not_begins("remove"@ + rest, "search"@, 0);
    lemma_not_begins("remove"@ + rest, "select"@, 0);
    lemma_not_begins("remove"@ + rest, "list"@, 0);
    lemma_not_begins("remove"@ + rest, "load"@, 0);
    lemma_not_begins("remove"@ + rest, "count"@, 0);
    lemma_not_begins("remove"@ + rest, "exists"@, 0);
    lemma_not_begins("remove"@ + rest, "update"@, 0);
}

} // verus!
