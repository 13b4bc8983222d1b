//! Which entry points create, read, update and delete which tables.

use vstd::prelude::*;

use crate::lift::symbolic::{last_segment, segment_after_dots};
use crate::lines::{begins, char_lists, copy_chars, ends, ends_with, lines, lines_of, starts_with};
use crate::model::entity::JavaEntityType;
use crate::model::graph::LinkView;
use crate::model::space_data::{entry_of, index_view, EntityRecord, EntityView, SpaceData, SpaceView};
use crate::order::stable_sorted;
use crate::query::crud_lines::{bindings_of, called_method_on, called_on, repository_bindings};
use crate::query::explain::{is_call, names_call};
use crate::query::feature::{by_text, sorted_texts};
use crate::query::hotspots::body_lines;
use crate::query::java::{
    accessor_name, default_sql_name, is_accessor, operation_of, repository_operation, table_annotation,
    table_annotation_name, with_underscores,
};
use crate::query::mybatis::{is_mapper_xml, mapper_after, parse_mapper_statements, MapperStatement, StatementView};
use crate::query::reach::{edge_views, reachable_from, reached};
use crate::query::resolve::{entity_views, fqn_of_cell, name_of};
use crate::query::sql::{
    access_of_table, is_sql_file, parse_create_tables, table_access, tables_in, SqlTableDef, TableDefView,
};
use crate::text::{chars_of, has, lowercase, same, string_of, texts, uppercase};
use crate::text_map::{lookup, TextMap};
use crate::text_set::{including, TextSet};

verus! {

#[derive(Debug)]
pub struct CrudEntry {
    /// Entry-point method (no callers in the analyzed sources).
    pub entry_point: String,
    /// Subset of "CRUD", in that order.
    pub operations: String,
    /// Methods or SQL statements where the operations were observed.
    pub evidence: Vec<String>,
}

#[verifier::ext_equal]
pub struct CrudEntryView {
    pub entry_point: Seq<char>,
    pub operations: Seq<char>,
    pub evidence: Seq<Seq<char>>,
}

impl View for CrudEntry {
    type V = CrudEntryView;

    open spec fn view(&self) -> CrudEntryView {
        CrudEntryView {
            entry_point: self.entry_point@,
            operations: self.operations@,
            evidence: texts(self.evidence@),
        }
    }
}

#[derive(Debug)]
pub struct TableCrud {
    pub table_class: String,
    pub table_name: String,
    pub entries: Vec<CrudEntry>,
}

#[verifier::ext_equal]
pub struct TableCrudView {
    pub table_class: Seq<char>,
    pub table_name: Seq<char>,
    pub entries: Seq<CrudEntryView>,
}

impl View for TableCrud {
    type V = TableCrudView;

    open spec fn view(&self) -> TableCrudView {
        TableCrudView {
            table_class: self.table_class@,
            table_name: self.table_name@,
            entries: self.entries@.map_values(|x: CrudEntry| x@),
        }
    }
}

#[derive(Debug)]
pub struct CrudMatrixResult {
    pub tables: Vec<TableCrud>,
    pub entry_points_analyzed: usize,
    pub note: String,
}

#[verifier::ext_equal]
pub struct CrudMatrixResultView {
    pub tables: Seq<TableCrudView>,
    pub entry_points_analyzed: usize,
    pub note: Seq<char>,
}

impl View for CrudMatrixResult {
    type V = CrudMatrixResultView;

    open spec fn view(&self) -> CrudMatrixResultView {
        CrudMatrixResultView {
            tables: self.tables@.map_values(|x: TableCrud| x@),
            entry_points_analyzed: self.entry_points_analyzed,
            note: self.note@,
        }
    }
}

/// The calls between names that relations show.
pub open spec fn call_edges(index: Seq<(Seq<char>, Seq<char>)>, links: Seq<LinkView>) -> Seq<(Seq<char>, Seq<char>)>
    decreases links.len(),
{
    if links.len() == 0 {
        Seq::empty()
    } else {
        let before = call_edges(index, links.drop_last());
        let l = links.last();
        match (name_of(index, l.from), name_of(index, l.to)) {
            (Some(from), Some(to)) => if is_call(l.relation) {
                before.push((from, to))
            } else {
                before
            },
            _ => before,
        }
    }
}

/// The names that something calls.
pub open spec fn called_names(index: Seq<(Seq<char>, Seq<char>)>, links: Seq<LinkView>) -> Seq<Seq<char>>
    decreases links.len(),
{
    if links.len() == 0 {
        Seq::empty()
    } else {
        let before = called_names(index, links.drop_last());
        let l = links.last();
        match (name_of(index, l.from), name_of(index, l.to)) {
            (Some(_), Some(to)) => if l.relation == "java.calls"@ {
                including(before, to)
            } else {
                before
            },
            _ => before,
        }
    }
}

/// A class that stands for a table.
#[verifier::ext_equal]
pub struct TableView {
    pub class_fqn: Seq<char>,
    pub simple: Seq<char>,
    pub table_name: Seq<char>,
}

/// A member that a data class can have: a field, a constructor, an accessor
/// or a nested declaration.
pub open spec fn is_plain_member(e: EntityView) -> bool {
    e.entity_type != JavaEntityType::Method || accessor_name(e.label)
}

/// The class has a field.
pub open spec fn has_field(entities: Seq<EntityView>, prefix: Seq<char>) -> bool {
    exists|i: int|
        0 <= i < entities.len() && begins((#[trigger] entities[i]).fqn, prefix) && entities[i].entity_type
            == JavaEntityType::Field
}

/// All members of the class are those of a data class.
pub open spec fn all_plain(entities: Seq<EntityView>, prefix: Seq<char>) -> bool {
    forall|i: int|
        0 <= i < entities.len() && begins((#[trigger] entities[i]).fqn, prefix) ==> is_plain_member(entities[i])
}

/// The names of the tables that the SQL sources create.
pub open spec fn created_names(sources: Seq<(Seq<char>, Seq<char>)>) -> Seq<Seq<char>>
    decreases sources.len(),
{
    if sources.len() == 0 {
        Seq::empty()
    } else {
        let before = created_names(sources.drop_last());
        if ends(lowercase(sources.last().0), ".sql"@) {
            before + tables_in(sources.last().1).map_values(|t: TableDefView| t.table_name)
        } else {
            before
        }
    }
}

/// A table of that name is among those created, ignoring case.
pub open spec fn is_created(created: Seq<Seq<char>>, table: Seq<char>) -> bool {
    exists|i: int| 0 <= i < created.len() && uppercase(#[trigger] created[i]) == uppercase(table)
}

/// A class that stands for a table: one with fields whose other members are
/// only constructors and accessors, or one whose table the sources create.
pub open spec fn is_data_class(e: EntityView, entities: Seq<EntityView>, sources: Seq<(Seq<char>, Seq<char>)>) -> bool {
    let prefix = e.fqn + "."@;
    e.entity_type == JavaEntityType::Class && (has_field(entities, prefix) && all_plain(entities, prefix) || is_created(
        created_names(sources),
        table_of(e, sources).table_name,
    ))
}

/// The table of a class: the one its annotation names, or else by convention.
pub open spec fn table_of(e: EntityView, sources: Seq<(Seq<char>, Seq<char>)>) -> TableView {
    let simple = last_segment(e.fqn);
    let named = match lookup(sources, e.witness.file) {
        Some(source) => table_annotation(source),
        None => None,
    };
    TableView {
        class_fqn: e.fqn,
        simple,
        table_name: match named {
            Some(name) => name,
            None => lowercase(with_underscores(simple)),
        },
    }
}

/// The tables of the classes that stand for one among the first entities of all.
pub open spec fn tables_among(
    entities: Seq<EntityView>,
    all: Seq<EntityView>,
    sources: Seq<(Seq<char>, Seq<char>)>,
) -> Seq<TableView>
    decreases entities.len(),
{
    if entities.len() == 0 {
        Seq::empty()
    } else {
        let before = tables_among(entities.drop_last(), all, sources);
        if is_data_class(entities.last(), all, sources) {
            before.push(table_of(entities.last(), sources))
        } else {
            before
        }
    }
}

/// An operation on a table, and where it was observed.
#[verifier::ext_equal]
pub struct ObservationView {
    pub table: Seq<char>,
    pub operation: Seq<char>,
    pub evidence: Seq<char>,
}

/// What a line of SQL does to the first `n` tables.
pub open spec fn sql_of_line(line: Seq<char>, tables: Seq<TableView>, evidence: Seq<char>, n: int) -> Seq<
    ObservationView,
>
    decreases n,
{
    if n <= 0 {
        Seq::empty()
    } else {
        let before = sql_of_line(line, tables, evidence, n - 1);
        let t = tables[n - 1];
        match access_of_table(uppercase(line), uppercase(t.table_name)) {
            Some(access) => before.push(
                ObservationView { table: t.class_fqn, operation: seq![access.letter_spec()], evidence },
            ),
            None => before,
        }
    }
}

/// What some lines of SQL do to the tables.
pub open spec fn sql_of_lines(body: Seq<Seq<char>>, tables: Seq<TableView>, evidence: Seq<char>) -> Seq<
    ObservationView,
>
    decreases body.len(),
{
    if body.len() == 0 {
        Seq::empty()
    } else {
        sql_of_lines(body.drop_last(), tables, evidence) + sql_of_line(
            body.last(),
            tables,
            evidence,
            tables.len() as int,
        )
    }
}

/// Each of the operations on one table.
pub open spec fn operations_on(table: Seq<char>, operations: Seq<char>, evidence: Seq<char>) -> Seq<ObservationView>
    decreases operations.len(),
{
    if operations.len() == 0 {
        Seq::empty()
    } else {
        operations_on(table, operations.drop_last(), evidence).push(
            ObservationView { table, operation: seq![operations.last()], evidence },
        )
    }
}

/// The operations on those of the first `n` tables that have the simple name.
pub open spec fn operations_on_all(
    tables: Seq<TableView>,
    simple: Seq<char>,
    operations: Seq<char>,
    evidence: Seq<char>,
    n: int,
) -> Seq<ObservationView>
    decreases n,
{
    if n <= 0 {
        Seq::empty()
    } else {
        let before = operations_on_all(tables, simple, operations, evidence, n - 1);
        if tables[n - 1].simple == simple {
            before + operations_on(tables[n - 1].class_fqn, operations, evidence)
        } else {
            before
        }
    }
}

pub open spec fn call_evidence(name: Seq<char>, called: Seq<char>) -> Seq<char> {
    name + " → ."@ + called + "()"@
}

/// What a line does through the first `n` repository variables.
pub open spec fn repository_of_line(
    line: Seq<char>,
    bindings: Seq<(Seq<char>, Seq<char>)>,
    tables: Seq<TableView>,
    name: Seq<char>,
    n: int,
) -> Seq<ObservationView>
    decreases n,
{
    if n <= 0 {
        Seq::empty()
    } else {
        let before = repository_of_line(line, bindings, tables, name, n - 1);
        match called_on(line, bindings[n - 1].0) {
            Some(called) => match operation_of(called) {
                Some(operations) => before + operations_on_all(
                    tables,
                    bindings[n - 1].1,
                    operations,
                    call_evidence(name, called),
                    tables.len() as int,
                ),
                None => before,
            },
            None => before,
        }
    }
}

pub open spec fn repository_of_lines(
    body: Seq<Seq<char>>,
    bindings: Seq<(Seq<char>, Seq<char>)>,
    tables: Seq<TableView>,
    name: Seq<char>,
) -> Seq<ObservationView>
    decreases body.len(),
{
    if body.len() == 0 {
        Seq::empty()
    } else {
        repository_of_lines(body.drop_last(), bindings, tables, name) + repository_of_line(
            body.last(),
            bindings,
            tables,
            name,
            bindings.len() as int,
        )
    }
}

/// The last entity of a name.
pub open spec fn last_named(entities: Seq<EntityView>, fqn: Seq<char>) -> Option<int>
    decreases entities.len(),
{
    if entities.len() == 0 {
        None
    } else if entities.last().fqn == fqn {
        Some(entities.len() - 1)
    } else {
        last_named(entities.drop_last(), fqn)
    }
}

/// The lines of an entity, if they are at hand.
pub open spec fn lines_of_entity(e: EntityView, sources: Seq<(Seq<char>, Seq<char>)>) -> Seq<Seq<char>> {
    match lookup(sources, e.witness.file) {
        Some(content) => if e.witness.start_line > 0 && e.witness.end_line >= e.witness.start_line {
            body_lines(content, e.witness.start_line as int, e.witness.end_line as int)
        } else {
            Seq::empty()
        },
        None => Seq::empty(),
    }
}

/// The repository variables of a Java file.
pub open spec fn bindings_in_file(path: Seq<char>, sources: Seq<(Seq<char>, Seq<char>)>) -> Seq<
    (Seq<char>, Seq<char>),
> {
    match lookup(sources, path) {
        Some(content) => if ends(path, ".java"@) {
            bindings_of(content)
        } else {
            Seq::empty()
        },
        None => Seq::empty(),
    }
}

/// A file that holds mapper statements.
pub open spec fn is_mapper(path: Seq<char>, content: Seq<char>) -> bool {
    ends(lowercase(path), ".xml"@) && has(content, "<mapper"@)
}

/// The statements of the mapper files.
pub open spec fn all_statements(sources: Seq<(Seq<char>, Seq<char>)>) -> Seq<StatementView>
    decreases sources.len(),
{
    if sources.len() == 0 {
        Seq::empty()
    } else {
        let before = all_statements(sources.drop_last());
        let (path, content) = sources.last();
        if is_mapper(path, content) {
            before + mapper_after(lines(content)).statements
        } else {
            before
        }
    }
}

/// The last statement of a name.
pub open spec fn last_statement(statements: Seq<StatementView>, fqn: Seq<char>) -> Option<Seq<char>>
    decreases statements.len(),
{
    if statements.len() == 0 {
        None
    } else if statements.last().fqn == fqn {
        Some(statements.last().sql)
    } else {
        last_statement(statements.drop_last(), fqn)
    }
}

/// What there is to look at: the entities, the tables, the sources and the
/// mapper statements.
#[verifier::ext_equal]
pub struct Scene {
    pub entities: Seq<EntityView>,
    pub tables: Seq<TableView>,
    pub sources: Seq<(Seq<char>, Seq<char>)>,
    pub statements: Seq<StatementView>,
}

/// What the code of a name does to the tables.
pub open spec fn observed_at(scene: Scene, name: Seq<char>) -> Seq<ObservationView> {
    let own = match last_named(scene.entities, name) {
        Some(i) => {
            let e = scene.entities[i];
            let body = lines_of_entity(e, scene.sources);
            sql_of_lines(body, scene.tables, name) + repository_of_lines(
                body,
                bindings_in_file(e.witness.file, scene.sources),
                scene.tables,
                name,
            )
        },
        None => Seq::empty(),
    };
    match last_statement(scene.statements, name) {
        Some(sql) => own + sql_of_lines(lines(sql), scene.tables, name + " (mapper XML)"@),
        None => own,
    }
}

/// What the code of some names does to the tables.
pub open spec fn observed(scene: Scene, names: Seq<Seq<char>>) -> Seq<ObservationView>
    decreases names.len(),
{
    if names.len() == 0 {
        Seq::empty()
    } else {
        observed(scene, names.drop_last()) + observed_at(scene, names.last())
    }
}

/// A method that nothing calls and that is no accessor.
pub open spec fn is_entry(e: EntityView, called: Seq<Seq<char>>) -> bool {
    e.entity_type == JavaEntityType::Method && !called.contains(e.fqn) && !accessor_name(e.label)
}

/// The names of the entry points, once each.
pub open spec fn entry_names(entities: Seq<EntityView>, called: Seq<Seq<char>>) -> Seq<Seq<char>>
    decreases entities.len(),
{
    if entities.len() == 0 {
        Seq::empty()
    } else {
        let before = entry_names(entities.drop_last(), called);
        if is_entry(entities.last(), called) {
            including(before, entities.last().fqn)
        } else {
            before
        }
    }
}

/// The number of entry points.
pub open spec fn entry_count(entities: Seq<EntityView>, called: Seq<Seq<char>>) -> nat
    decreases entities.len(),
{
    if entities.len() == 0 {
        0
    } else {
        entry_count(entities.drop_last(), called) + if is_entry(entities.last(), called) {
            1nat
        } else {
            0nat
        }
    }
}

/// The operation was observed on the table.
pub open spec fn has_operation(seen: Seq<ObservationView>, table: Seq<char>, operation: Seq<char>) -> bool {
    exists|i: int| 0 <= i < seen.len() && (#[trigger] seen[i]).table == table && seen[i].operation == operation
}

pub open spec fn letter_if(present: bool, letter: Seq<char>) -> Seq<char> {
    if present {
        letter
    } else {
        Seq::empty()
    }
}

/// The operations that were observed on the table, in the usual order.
pub open spec fn operations_seen(seen: Seq<ObservationView>, table: Seq<char>) -> Seq<char> {
    letter_if(has_operation(seen, table, "C"@), "C"@) + letter_if(has_operation(seen, table, "R"@), "R"@) + letter_if(
        has_operation(seen, table, "U"@),
        "U"@,
    ) + letter_if(has_operation(seen, table, "D"@), "D"@)
}

/// Where operations on the table were observed.
pub open spec fn evidence_seen(seen: Seq<ObservationView>, table: Seq<char>) -> Seq<Seq<char>>
    decreases seen.len(),
{
    if seen.len() == 0 {
        Seq::empty()
    } else {
        let before = evidence_seen(seen.drop_last(), table);
        if seen.last().table == table {
            including(before, seen.last().evidence)
        } else {
            before
        }
    }
}

/// At most five elements.
pub open spec fn first_five(s: Seq<Seq<char>>) -> Seq<Seq<char>> {
    if s.len() > 5 {
        s.take(5)
    } else {
        s
    }
}

/// What the first `n` entry points do to the table.
pub open spec fn entries_of(
    table: Seq<char>,
    entries: Seq<Seq<char>>,
    seen: Seq<Seq<ObservationView>>,
    n: int,
) -> Seq<CrudEntryView>
    decreases n,
{
    if n <= 0 {
        Seq::empty()
    } else {
        let before = entries_of(table, entries, seen, n - 1);
        let evidence = evidence_seen(seen[n - 1], table);
        if evidence.len() == 0 {
            before
        } else {
            before.push(
                CrudEntryView {
                    entry_point: entries[n - 1],
                    operations: operations_seen(seen[n - 1], table),
                    evidence: first_five(stable_sorted(evidence, by_text())),
                },
            )
        }
    }
}

/// The rows of the first `n` tables; a table that nothing touches has none.
pub open spec fn matrix_rows(
    tables: Seq<TableView>,
    entries: Seq<Seq<char>>,
    seen: Seq<Seq<ObservationView>>,
    n: int,
) -> Seq<TableCrudView>
    decreases n,
{
    if n <= 0 {
        Seq::empty()
    } else {
        let before = matrix_rows(tables, entries, seen, n - 1);
        let own = entries_of(tables[n - 1].class_fqn, entries, seen, entries.len() as int);
        if own.len() == 0 {
            before
        } else {
            before.push(
                TableCrudView {
                    table_class: tables[n - 1].class_fqn,
                    table_name: tables[n - 1].table_name,
                    entries: own,
                },
            )
        }
    }
}

pub open spec fn scene_of(space: SpaceView, sources: Seq<(Seq<char>, Seq<char>)>) -> Scene {
    Scene {
        entities: space.entities,
        tables: tables_among(space.entities, space.entities, sources),
        sources,
        statements: all_statements(sources),
    }
}

/// Which entry points do what to which tables.
pub open spec fn crud_of(space: SpaceView, sources: Seq<(Seq<char>, Seq<char>)>) -> Result<
    CrudMatrixResultView,
    Seq<char>,
> {
    let scene = scene_of(space, sources);
    let edges = call_edges(space.index, space.links);
    let called = called_names(space.index, space.links);
    let entries = stable_sorted(entry_names(space.entities, called), by_text());
    let seen = entries.map_values(|e: Seq<char>| observed(scene, reached(edges, e)));
    if scene.tables.len() == 0 {
        Err("No data classes found to build a CRUD matrix for"@)
    } else {
        Ok(
            CrudMatrixResultView {
                tables: matrix_rows(scene.tables, entries, seen, scene.tables.len() as int),
                entry_points_analyzed: entry_count(space.entities, called) as usize,
                note: "Operations are derived from SQL statements (in Java strings, .sql files, and MyBatis mapper XML) and repository naming conventions, reached from each entry point over the resolved call graph. Unresolved calls may hide operations — check the unknowns tool for gaps."@,
            },
        )
    }
}

pub open spec fn crud_result(r: Result<CrudMatrixResult, String>) -> Result<CrudMatrixResultView, Seq<char>> {
    match r {
        Ok(x) => Ok(x@),
        Err(e) => Err(e@),
    }
}

/// A class that stands for a table.
#[derive(Debug)]
struct Table {
    class_fqn: String,
    simple: String,
    table_name: String,
}

impl View for Table {
    type V = TableView;

    closed spec fn view(&self) -> TableView {
        TableView { class_fqn: self.class_fqn@, simple: self.simple@, table_name: self.table_name@ }
    }
}

/// An operation on a table, and where it was observed.
#[derive(Debug)]
struct Observation {
    table: String,
    operation: String,
    evidence: String,
}

impl View for Observation {
    type V = ObservationView;

    closed spec fn view(&self) -> ObservationView {
        ObservationView { table: self.table@, operation: self.operation@, evidence: self.evidence@ }
    }
}

spec fn table_views(v: Seq<Table>) -> Seq<TableView> {
    v.map_values(|t: Table| t@)
}

spec fn seen_views(v: Seq<Observation>) -> Seq<ObservationView> {
    v.map_values(|o: Observation| o@)
}

fn collect_calls(space_data: &SpaceData) -> (r: (Vec<(String, String)>, TextSet))
    ensures
        edge_views(r.0@) == call_edges(space_data@.index, space_data@.links),
        r.1.texts() == called_names(space_data@.index, space_data@.links),
{
    let ghost space = space_data@;
    let ghost all = space.links;
    let mut edges: Vec<(String, String)> = Vec::new();
    let mut called = TextSet::new();
    let mut i: usize = 0;
    assert(edge_views(edges@) =~= call_edges(space.index, all.take(0)));
    while i < space_data.incidences.len()
        invariant
            i <= space_data.incidences@.len(),
            space == space_data@,
            all == space.links,
            edge_views(edges@) == call_edges(space.index, all.take(i as int)),
            called.texts() == called_names(space.index, all.take(i as int)),
        decreases space_data.incidences.len() - i,
    {
        let l = &space_data.incidences[i];
        assert(all[i as int] == l@);
        assert(all.take(i + 1).drop_last() =~= all.take(i as int));
        match (
            fqn_of_cell(&space_data.fqn_to_cell_id, l.from_cell_id.as_str()),
            fqn_of_cell(&space_data.fqn_to_cell_id, l.to_cell_id.as_str()),
        ) {
            (Some(from), Some(to)) => {
                if names_call(l.relation_type.as_str()) {
                    let ghost before = edge_views(edges@);
                    edges.push((from.clone(), to.clone()));
                    assert(edge_views(edges@) =~= before.push((from@, to@)));
                }
                if same(l.relation_type.as_str(), "java.calls") {
                    called.add_text(to.clone());
                }
            },
            _ => {},
        }
        i = i + 1;
    }
    assert(all.take(i as int) =~= all);
    (edges, called)
}

/// The names of the tables that the SQL sources create.
fn collect_created(source_files: &TextMap<String>) -> (r: Vec<String>)
    ensures
        texts(r@) == created_names(index_view(*source_files)),
{
    let ghost all = index_view(*source_files);
    let mut r: Vec<String> = Vec::new();
    let n: usize = source_files.len();
    let mut i: usize = 0;
    assert(texts(r@) =~= created_names(all.take(0)));
    while i < n
        invariant
            all == index_view(*source_files),
            n == source_files.entries().len(),
            i <= n,
            texts(r@) == created_names(all.take(i as int)),
        decreases n - i,
    {
        let path = source_files.key_at(i);
        let content = source_files.value_at(i);
        assert(all[i as int] == (path@, content@));
        assert(all.take(i + 1).drop_last() =~= all.take(i as int));
        if is_sql_file(path.as_str()) {
            let tables = parse_create_tables(content.as_str());
            let ghost names = tables_in(content@).map_values(|t: TableDefView| t.table_name);
            let ghost start = texts(r@);
            let mut k: usize = 0;
            assert(start + names.take(0) =~= start);
            while k < tables.len()
                invariant
                    k <= tables@.len() == names.len(),
                    names == tables@.map_values(|t: SqlTableDef| t@).map_values(|t: TableDefView| t.table_name),
                    texts(r@) == start + names.take(k as int),
                decreases tables.len() - k,
            {
                let ghost before = r@;
                let name = tables[k].table_name.clone();
                assert(names[k as int] == name@);
                r.push(name);
                assert(texts(r@) =~= texts(before).push(names[k as int]));
                k = k + 1;
                assert(texts(r@) =~= start + names.take(k as int));
            }
            assert(names.take(k as int) =~= names);
        }
        i = i + 1;
    }
    assert(all.take(i as int) =~= all);
    r
}

fn names_created(created: &Vec<String>, table: &str) -> (r: bool)
    ensures
        r == is_created(texts(created@), table@),
{
    let ghost all = texts(created@);
    let upper = table.to_uppercase();
    let mut i: usize = 0;
    while i < created.len()
        invariant
            i <= created@.len(),
            all == texts(created@),
            upper@ == uppercase(table@),
            forall|k: int| 0 <= k < i ==> uppercase(#[trigger] all[k]) != uppercase(table@),
        decreases created.len() - i,
    {
        assert(all[i as int] == created@[i as int]@);
        if same(created[i].as_str().to_uppercase().as_str(), upper.as_str()) {
            return true;
        }
        i = i + 1;
    }
    false
}

/// Some field, and otherwise only members of a data class.
fn has_plain_members(e: &EntityRecord, entities: &Vec<EntityRecord>) -> (r: bool)
    ensures
        r == (has_field(entity_views(entities@), e@.fqn + "."@) && all_plain(entity_views(entities@), e@.fqn + "."@)),
{
    let ghost all = entity_views(entities@);
    let mut prefix = e.fqn.clone();
    prefix.append(".");
    let mut fields: bool = false;
    let mut i: usize = 0;
    while i < entities.len()
        invariant
            i <= entities@.len(),
            all == entity_views(entities@),
            prefix@ == e@.fqn + "."@,
            fields == exists|j: int|
                0 <= j < i && begins((#[trigger] all[j]).fqn, prefix@) && all[j].entity_type == JavaEntityType::Field,
            forall|j: int| 0 <= j < i && begins((#[trigger] all[j]).fqn, prefix@) ==> is_plain_member(all[j]),
        decreases entities.len() - i,
    {
        let m = &entities[i];
        assert(all[i as int] == m@);
        let ghost was = fields;
        if starts_with(chars_of(m.fqn.as_str()).as_slice(), prefix.as_str()) {
            if m.entity_type == JavaEntityType::Method && !is_accessor(m.label.as_str()) {
                assert(!is_plain_member(all[i as int]));
                return false;
            }
            if m.entity_type == JavaEntityType::Field {
                fields = true;
            }
        }
        proof {
            if was {
                let j = choose|j: int|
                    0 <= j < i && begins((#[trigger] all[j]).fqn, prefix@) && all[j].entity_type
                        == JavaEntityType::Field;
                assert(begins(all[j].fqn, prefix@));
            }
        }
        i = i + 1;
    }
    fields
}

/// The name of the table of a class.
pub fn table_name_of(e: &EntityRecord, source_files: &TextMap<String>) -> (r: String)
    ensures
        r@ == table_of(e@, index_view(*source_files)).table_name,
{
    find_table(e, source_files).table_name
}

fn find_table(e: &EntityRecord, source_files: &TextMap<String>) -> (r: Table)
    ensures
        r@ == table_of(e@, index_view(*source_files)),
{
    let simple = segment_after_dots(chars_of(e.fqn.as_str()).as_slice());
    let named = match entry_of(source_files, e.witness.file.as_str()) {
        Some(source) => table_annotation_name(source.as_str()),
        None => None,
    };
    let table_name = match named {
        Some(name) => name,
        None => default_sql_name(simple.as_str()),
    };
    Table { class_fqn: e.fqn.clone(), simple, table_name }
}

fn find_table_classes(entities: &Vec<EntityRecord>, source_files: &TextMap<String>) -> (r: Vec<Table>)
    ensures
        table_views(r@) == tables_among(entity_views(entities@), entity_views(entities@), index_view(*source_files)),
{
    let ghost all = entity_views(entities@);
    let ghost sources = index_view(*source_files);
    let created = collect_created(source_files);
    let mut r: Vec<Table> = Vec::new();
    let mut i: usize = 0;
    assert(table_views(r@) =~= tables_among(all.take(0), all, sources));
    while i < entities.len()
        invariant
            i <= entities@.len(),
            all == entity_views(entities@),
            sources == index_view(*source_files),
            texts(created@) == created_names(sources),
            table_views(r@) == tables_among(all.take(i as int), all, sources),
        decreases entities.len() - i,
    {
        assert(all[i as int] == entities@[i as int]@);
        assert(all.take(i + 1).drop_last() =~= all.take(i as int));
        let e = &entities[i];
        if e.entity_type == JavaEntityType::Class {
            let t = find_table(e, source_files);
            if has_plain_members(e, entities) || names_created(&created, t.table_name.as_str()) {
                let ghost before = table_views(r@);
                let ghost tv = t@;
                r.push(t);
                assert(table_views(r@) =~= before.push(tv));
            }
        }
        i = i + 1;
    }
    assert(all.take(i as int) =~= all);
    r
}

fn note(seen: &mut Vec<Observation>, table: &str, operation: char, evidence: &str)
    ensures
        seen_views(final(seen)@) == seen_views(old(seen)@).push(
            ObservationView { table: table@, operation: seq![operation], evidence: evidence@ },
        ),
{
    let ghost before = seen_views(seen@);
    let mut letter = String::new();
    letter.push(operation);
    assert(letter@ =~= seq![operation]);
    let item = Observation { table: table.to_owned(), operation: letter, evidence: evidence.to_owned() };
    let ghost iv = item@;
    seen.push(item);
    assert(seen_views(seen@) =~= before.push(iv));
}

fn read_sql_line(seen: &mut Vec<Observation>, line: &[char], tables: &Vec<Table>, evidence: &str)
    ensures
        seen_views(final(seen)@) == seen_views(old(seen)@) + sql_of_line(
            line@,
            table_views(tables@),
            evidence@,
            tables@.len() as int,
        ),
{
    let ghost start = seen_views(seen@);
    let ghost all = table_views(tables@);
    let text = string_of(line);
    let mut i: usize = 0;
    assert(start + sql_of_line(line@, all, evidence@, 0) =~= start);
    while i < tables.len()
        invariant
            i <= tables@.len(),
            all == table_views(tables@),
            text@ == line@,
            seen_views(seen@) == start + sql_of_line(line@, all, evidence@, i as int),
        decreases tables.len() - i,
    {
        let t = &tables[i];
        assert(all[i as int] == t@);
        match table_access(text.as_str(), t.table_name.as_str()) {
            Some(access) => {
                note(seen, t.class_fqn.as_str(), access.letter(), evidence);
                assert(seen_views(seen@) =~= start + sql_of_line(line@, all, evidence@, i + 1));
            },
            None => {},
        }
        i = i + 1;
    }
}

fn read_sql(seen: &mut Vec<Observation>, body: &Vec<Vec<char>>, tables: &Vec<Table>, evidence: &str)
    ensures
        seen_views(final(seen)@) == seen_views(old(seen)@) + sql_of_lines(
            char_lists(body@),
            table_views(tables@),
            evidence@,
        ),
{
    let ghost start = seen_views(seen@);
    let ghost all = char_lists(body@);
    let ghost tv = table_views(tables@);
    let mut i: usize = 0;
    assert(start + sql_of_lines(all.take(0), tv, evidence@) =~= start);
    while i < body.len()
        invariant
            i <= body@.len(),
            all == char_lists(body@),
            tv == table_views(tables@),
            seen_views(seen@) == start + sql_of_lines(all.take(i as int), tv, evidence@),
        decreases body.len() - i,
    {
        assert(all[i as int] == body@[i as int]@);
        assert(all.take(i + 1).drop_last() =~= all.take(i as int));
        read_sql_line(seen, body[i].as_slice(), tables, evidence);
        assert(tv.len() == tables@.len());
        assert(seen_views(seen@) =~= start + sql_of_lines(all.take(i + 1), tv, evidence@));
        i = i + 1;
    }
    assert(all.take(i as int) =~= all);
}

fn note_operations(seen: &mut Vec<Observation>, tables: &Vec<Table>, simple: &str, operations: &str, evidence: &str)
    ensures
        seen_views(final(seen)@) == seen_views(old(seen)@) + operations_on_all(
            table_views(tables@),
            simple@,
            operations@,
            evidence@,
            tables@.len() as int,
        ),
{
    let ghost start = seen_views(seen@);
    let ghost all = table_views(tables@);
    let letters = chars_of(operations);
    let mut i: usize = 0;
    assert(start + operations_on_all(all, simple@, operations@, evidence@, 0) =~= start);
    while i < tables.len()
        invariant
            i <= tables@.len(),
            all == table_views(tables@),
            letters@ == operations@,
            seen_views(seen@) == start + operations_on_all(all, simple@, operations@, evidence@, i as int),
        decreases tables.len() - i,
    {
        let t = &tables[i];
        assert(all[i as int] == t@);
        if same(t.simple.as_str(), simple) {
            let ghost before = seen_views(seen@);
            let ghost class = t@.class_fqn;
            let mut k: usize = 0;
            assert(before + operations_on(class, operations@.take(0), evidence@) =~= before);
            while k < letters.len()
                invariant
                    k <= letters@.len(),
                    letters@ == operations@,
                    class == t.class_fqn@,
                    seen_views(seen@) == before + operations_on(class, operations@.take(k as int), evidence@),
                decreases letters.len() - k,
            {
                assert(operations@.take(k + 1).drop_last() =~= operations@.take(k as int));
                note(seen, t.class_fqn.as_str(), letters[k], evidence);
                k = k + 1;
                assert(seen_views(seen@) =~= before + operations_on(class, operations@.take(k as int), evidence@));
            }
            assert(operations@.take(k as int) =~= operations@);
            assert(seen_views(seen@) =~= start + operations_on_all(all, simple@, operations@, evidence@, i + 1));
        }
        i = i + 1;
    }
}

fn read_repository_line(
    seen: &mut Vec<Observation>,
    line: &[char],
    bindings: &Vec<(String, String)>,
    tables: &Vec<Table>,
    name: &str,
)
    ensures
        seen_views(final(seen)@) == seen_views(old(seen)@) + repository_of_line(
            line@,
            edge_views(bindings@),
            table_views(tables@),
            name@,
            bindings@.len() as int,
        ),
{
    let ghost start = seen_views(seen@);
    let ghost all = edge_views(bindings@);
    let ghost tv = table_views(tables@);
    let text = string_of(line);
    let mut i: usize = 0;
    assert(start + repository_of_line(line@, all, tv, name@, 0) =~= start);
    while i < bindings.len()
        invariant
            i <= bindings@.len(),
            all == edge_views(bindings@),
            tv == table_views(tables@),
            text@ == line@,
            seen_views(seen@) == start + repository_of_line(line@, all, tv, name@, i as int),
        decreases bindings.len() - i,
    {
        assert(all[i as int] == (bindings@[i as int].0@, bindings@[i as int].1@));
        match called_method_on(text.as_str(), bindings[i].0.as_str()) {
            Some(called) => match repository_operation(called.as_str()) {
                Some(operations) => {
                    let mut evidence = name.to_owned();
                    evidence.append(" → .");
                    evidence.append(called.as_str());
                    evidence.append("()");
                    note_operations(seen, tables, bindings[i].1.as_str(), operations, evidence.as_str());
                    assert(tv.len() == tables@.len());
                    assert(seen_views(seen@) =~= start + repository_of_line(line@, all, tv, name@, i + 1));
                },
                None => {},
            },
            None => {},
        }
        i = i + 1;
    }
}

fn read_repository(
    seen: &mut Vec<Observation>,
    body: &Vec<Vec<char>>,
    bindings: &Vec<(String, String)>,
    tables: &Vec<Table>,
    name: &str,
)
    ensures
        seen_views(final(seen)@) == seen_views(old(seen)@) + repository_of_lines(
            char_lists(body@),
            edge_views(bindings@),
            table_views(tables@),
            name@,
        ),
{
    let ghost start = seen_views(seen@);
    let ghost all = char_lists(body@);
    let ghost tv = table_views(tables@);
    let ghost bv = edge_views(bindings@);
    let mut i: usize = 0;
    assert(start + repository_of_lines(all.take(0), bv, tv, name@) =~= start);
    while i < body.len()
        invariant
            i <= body@.len(),
            all == char_lists(body@),
            tv == table_views(tables@),
            bv == edge_views(bindings@),
            seen_views(seen@) == start + repository_of_lines(all.take(i as int), bv, tv, name@),
        decreases body.len() - i,
    {
        assert(all[i as int] == body@[i as int]@);
        assert(all.take(i + 1).drop_last() =~= all.take(i as int));
        read_repository_line(seen, body[i].as_slice(), bindings, tables, name);
        assert(bv.len() == bindings@.len());
        assert(seen_views(seen@) =~= start + repository_of_lines(all.take(i + 1), bv, tv, name@));
        i = i + 1;
    }
    assert(all.take(i as int) =~= all);
}

fn find_last_named(entities: &Vec<EntityRecord>, fqn: &str) -> (r: Option<usize>)
    ensures
        match r {
            Some(i) => i < entities@.len() && last_named(entity_views(entities@), fqn@) == Some(i as int),
            None => last_named(entity_views(entities@), fqn@) is None,
        },
{
    let ghost all = entity_views(entities@);
    let mut n: usize = entities.len();
    assert(all.take(n as int) =~= all);
    while n > 0
        invariant
            n <= entities@.len(),
            all == entity_views(entities@),
            last_named(all, fqn@) == last_named(all.take(n as int), fqn@),
        decreases n,
    {
        assert(all.take(n as int).drop_last() =~= all.take(n - 1));
        assert(all[n - 1] == entities@[n - 1]@);
        n = n - 1;
        if same(entities[n].fqn.as_str(), fqn) {
            return Some(n);
        }
    }
    None
}

fn entity_lines(e: &EntityRecord, source_files: &TextMap<String>) -> (r: Vec<Vec<char>>)
    ensures
        char_lists(r@) == lines_of_entity(e@, index_view(*source_files)),
{
    let mut r: Vec<Vec<char>> = Vec::new();
    assert(char_lists(r@) =~= Seq::empty());
    match entry_of(source_files, e.witness.file.as_str()) {
        Some(content) => {
            if e.witness.start_line > 0 && e.witness.end_line >= e.witness.start_line {
                let list = lines_of(chars_of(content.as_str()).as_slice());
                let ghost all = lines(content@);
                assert(char_lists(list@) == all);
                assert(char_lists(list@).len() == list@.len());
                let ghost body = body_lines(content@, e.witness.start_line as int, e.witness.end_line as int);
                let start: usize = e.witness.start_line as usize - 1;
                let end: usize = e.witness.end_line as usize;
                let mut i: usize = start;
                assert(body.take(0) =~= Seq::empty());
                while i < end && i < list.len()
                    invariant
                        all == char_lists(list@),
                        list@.len() == all.len(),
                        all == lines(content@),
                        start == e.witness.start_line - 1,
                        end == e.witness.end_line,
                        start <= i <= end,
                        i <= list@.len() || i == start,
                        body == body_lines(content@, e.witness.start_line as int, e.witness.end_line as int),
                        i - start <= body.len(),
                        char_lists(r@) == body.take(i - start),
                    decreases list.len() - i,
                {
                    let ghost before = char_lists(r@);
                    let line = copy_chars(list[i].as_slice());
                    let ghost x = line@;
                    assert(all[i as int] == list@[i as int]@);
                    assert(body[i - start] == all[i as int]);
                    r.push(line);
                    i = i + 1;
                    assert(char_lists(r@) =~= before.push(x));
                    assert(char_lists(r@) =~= body.take(i - start));
                }
                assert(body.take(i - start) =~= body);
            }
        },
        None => {},
    }
    r
}

fn file_bindings(path: &str, source_files: &TextMap<String>) -> (r: Vec<(String, String)>)
    ensures
        edge_views(r@) == bindings_in_file(path@, index_view(*source_files)),
{
    match entry_of(source_files, path) {
        Some(content) => {
            if ends_with(chars_of(path).as_slice(), ".java") {
                return repository_bindings(content.as_str());
            }
        },
        None => {},
    }
    let r: Vec<(String, String)> = Vec::new();
    assert(edge_views(r@) =~= Seq::empty());
    r
}

spec fn statement_views(v: Seq<MapperStatement>) -> Seq<StatementView> {
    v.map_values(|s: MapperStatement| s@)
}

fn collect_statements(source_files: &TextMap<String>) -> (r: Vec<MapperStatement>)
    ensures
        statement_views(r@) == all_statements(index_view(*source_files)),
{
    let ghost all = index_view(*source_files);
    let n: usize = source_files.len();
    let mut r: Vec<MapperStatement> = Vec::new();
    let mut i: usize = 0;
    assert(statement_views(r@) =~= all_statements(all.take(0)));
    while i < n
        invariant
            all == index_view(*source_files),
            n == source_files.entries().len(),
            i <= n,
            statement_views(r@) == all_statements(all.take(i as int)),
        decreases n - i,
    {
        let path = source_files.key_at(i);
        let content = source_files.value_at(i);
        assert(all[i as int] == (path@, content@));
        assert(all.take(i + 1).drop_last() =~= all.take(i as int));
        if is_mapper_xml(path.as_str(), content.as_str()) {
            let ghost before = r@;
            let mut more = parse_mapper_statements(content.as_str());
            let ghost m = more@;
            r.append(&mut more);
            assert(r@ =~= before + m);
            assert(statement_views(r@) =~= statement_views(before) + statement_views(m));
        }
        i = i + 1;
    }
    assert(all.take(i as int) =~= all);
    r
}

fn find_statement<'a>(statements: &'a Vec<MapperStatement>, fqn: &str) -> (r: Option<&'a MapperStatement>)
    ensures
        match r {
            Some(s) => last_statement(statement_views(statements@), fqn@) == Some(s@.sql) && s@.fqn == fqn@,
            None => last_statement(statement_views(statements@), fqn@) is None,
        },
{
    let ghost all = statement_views(statements@);
    let mut n: usize = statements.len();
    assert(all.take(n as int) =~= all);
    while n > 0
        invariant
            n <= statements@.len(),
            all == statement_views(statements@),
            last_statement(all, fqn@) == last_statement(all.take(n as int), fqn@),
        decreases n,
    {
        assert(all.take(n as int).drop_last() =~= all.take(n - 1));
        assert(all[n - 1] == statements@[n - 1]@);
        n = n - 1;
        if same(statements[n].fqn.as_str(), fqn) {
            return Some(&statements[n]);
        }
    }
    None
}

fn observe(
    seen: &mut Vec<Observation>,
    entities: &Vec<EntityRecord>,
    tables: &Vec<Table>,
    source_files: &TextMap<String>,
    statements: &Vec<MapperStatement>,
    name: &str,
)
    ensures
        seen_views(final(seen)@) == seen_views(old(seen)@) + observed_at(
            Scene {
                entities: entity_views(entities@),
                tables: table_views(tables@),
                sources: index_view(*source_files),
                statements: statement_views(statements@),
            },
            name@,
        ),
{
    let ghost start = seen_views(seen@);
    match find_last_named(entities, name) {
        Some(i) => {
            let e = &entities[i];
            assert(entity_views(entities@)[i as int] == e@);
            let body = entity_lines(e, source_files);
            read_sql(seen, &body, tables, name);
            let bindings = file_bindings(e.witness.file.as_str(), source_files);
            read_repository(seen, &body, &bindings, tables, name);
        },
        None => {},
    }
    match find_statement(statements, name) {
        Some(s) => {
            let mut evidence = s.fqn.clone();
            evidence.append(" (mapper XML)");
            let body = lines_of(chars_of(s.sql.as_str()).as_slice());
            read_sql(seen, &body, tables, evidence.as_str());
        },
        None => {},
    }
    assert(seen_views(seen@) =~= start + observed_at(
        Scene {
            entities: entity_views(entities@),
            tables: table_views(tables@),
            sources: index_view(*source_files),
            statements: statement_views(statements@),
        },
        name@,
    ));
}

fn operation_seen(seen: &Vec<Observation>, table: &str, operation: &str) -> (r: bool)
    ensures
        r == has_operation(seen_views(seen@), table@, operation@),
{
    let ghost all = seen_views(seen@);
    let mut i: usize = 0;
    while i < seen.len()
        invariant
            i <= seen@.len(),
            all == seen_views(seen@),
            forall|j: int| 0 <= j < i ==> !((#[trigger] all[j]).table == table@ && all[j].operation == operation@),
        decreases seen.len() - i,
    {
        assert(all[i as int] == seen@[i as int]@);
        if same(seen[i].operation.as_str(), operation) && same(seen[i].table.as_str(), table) {
            assert(all[i as int].table == table@);
            return true;
        }
        i = i + 1;
    }
    false
}

fn list_operations(seen: &Vec<Observation>, table: &str) -> (r: String)
    ensures
        r@ == operations_seen(seen_views(seen@), table@),
{
    let mut r = String::new();
    if operation_seen(seen, table, "C") {
        r.append("C");
    }
    if operation_seen(seen, table, "R") {
        r.append("R");
    }
    if operation_seen(seen, table, "U") {
        r.append("U");
    }
    if operation_seen(seen, table, "D") {
        r.append("D");
    }
    assert(r@ =~= operations_seen(seen_views(seen@), table@));
    r
}

fn list_evidence(seen: &Vec<Observation>, table: &str) -> (r: TextSet)
    ensures
        r.texts() == evidence_seen(seen_views(seen@), table@),
{
    let ghost all = seen_views(seen@);
    let mut r = TextSet::new();
    let mut i: usize = 0;
    while i < seen.len()
        invariant
            i <= seen@.len(),
            all == seen_views(seen@),
            r.texts() == evidence_seen(all.take(i as int), table@),
        decreases seen.len() - i,
    {
        assert(all[i as int] == seen@[i as int]@);
        assert(all.take(i + 1).drop_last() =~= all.take(i as int));
        if same(seen[i].table.as_str(), table) {
            r.add_text(seen[i].evidence.clone());
        }
        i = i + 1;
    }
    assert(all.take(i as int) =~= all);
    r
}

spec fn crud_views(v: Seq<CrudEntry>) -> Seq<CrudEntryView> {
    v.map_values(|e: CrudEntry| e@)
}

spec fn all_seen(v: Seq<Vec<Observation>>) -> Seq<Seq<ObservationView>> {
    v.map_values(|s: Vec<Observation>| seen_views(s@))
}

fn list_entries(table: &str, entries: &Vec<String>, seen: &Vec<Vec<Observation>>) -> (r: Vec<CrudEntry>)
    requires
        seen@.len() == entries@.len(),
    ensures
        crud_views(r@) == entries_of(table@, texts(entries@), all_seen(seen@), entries@.len() as int),
{
    let ghost names = texts(entries@);
    let ghost all = all_seen(seen@);
    let mut r: Vec<CrudEntry> = Vec::new();
    let mut i: usize = 0;
    assert(crud_views(r@) =~= Seq::empty());
    while i < entries.len()
        invariant
            seen@.len() == entries@.len(),
            names == texts(entries@),
            all == all_seen(seen@),
            i <= entries@.len(),
            crud_views(r@) == entries_of(table@, names, all, i as int),
        decreases entries.len() - i,
    {
        assert(names[i as int] == entries@[i as int]@);
        assert(all[i as int] == seen_views(seen@[i as int]@));
        let evidence = list_evidence(&seen[i], table);
        if evidence.len() > 0 {
            let mut sorted = sorted_texts(&evidence);
            let ghost s = sorted@;
            if sorted.len() > 5 {
                sorted.truncate(5);
                assert(texts(sorted@) =~= texts(s).take(5));
            }
            assert(texts(sorted@) == first_five(texts(s)));
            let ghost before = crud_views(r@);
            let item = CrudEntry {
                entry_point: entries[i].clone(),
                operations: list_operations(&seen[i], table),
                evidence: sorted,
            };
            let ghost iv = item@;
            r.push(item);
            assert(crud_views(r@) =~= before.push(iv));
        }
        i = i + 1;
    }
    r
}

fn collect_entries(entities: &Vec<EntityRecord>, called: &TextSet) -> (r: (TextSet, usize))
    ensures
        r.0.texts() == entry_names(entity_views(entities@), called.texts()),
        r.1 == entry_count(entity_views(entities@), called.texts()),
{
    let ghost all = entity_views(entities@);
    let mut names = TextSet::new();
    let mut n: usize = 0;
    let mut i: usize = 0;
    while i < entities.len()
        invariant
            i <= entities@.len(),
            all == entity_views(entities@),
            n <= i,
            names.texts() == entry_names(all.take(i as int), called.texts()),
            n == entry_count(all.take(i as int), called.texts()),
        decreases entities.len() - i,
    {
        let e = &entities[i];
        assert(all[i as int] == e@);
        assert(all.take(i + 1).drop_last() =~= all.take(i as int));
        if e.entity_type == JavaEntityType::Method && !called.has(e.fqn.as_str()) && !is_accessor(e.label.as_str()) {
            names.add_text(e.fqn.clone());
            n = n + 1;
        }
        i = i + 1;
    }
    assert(all.take(i as int) =~= all);
    (names, n)
}

fn observe_all(
    entities: &Vec<EntityRecord>,
    tables: &Vec<Table>,
    source_files: &TextMap<String>,
    statements: &Vec<MapperStatement>,
    names: &TextSet,
) -> (r: Vec<Observation>)
    ensures
        seen_views(r@) == observed(
            Scene {
                entities: entity_views(entities@),
                tables: table_views(tables@),
                sources: index_view(*source_files),
                statements: statement_views(statements@),
            },
            names.texts(),
        ),
{
    let ghost scene = Scene {
        entities: entity_views(entities@),
        tables: table_views(tables@),
        sources: index_view(*source_files),
        statements: statement_views(statements@),
    };
    let ghost all = names.texts();
    let n: usize = names.len();
    let mut r: Vec<Observation> = Vec::new();
    let mut i: usize = 0;
    assert(seen_views(r@) =~= observed(scene, all.take(0)));
    while i < n
        invariant
            scene == (Scene {
                entities: entity_views(entities@),
                tables: table_views(tables@),
                sources: index_view(*source_files),
                statements: statement_views(statements@),
            }),
            all == names.texts(),
            n == all.len(),
            i <= n,
            seen_views(r@) == observed(scene, all.take(i as int)),
        decreases n - i,
    {
        assert(all.take(i + 1).drop_last() =~= all.take(i as int));
        observe(&mut r, entities, tables, source_files, statements, names.text_at(i).as_str());
        i = i + 1;
    }
    assert(all.take(i as int) =~= all);
    r
}

spec fn row_views(v: Seq<TableCrud>) -> Seq<TableCrudView> {
    v.map_values(|t: TableCrud| t@)
}

/// Which entry points do what to which tables.
pub fn crud_matrix(space_data: &SpaceData, source_files: &TextMap<String>) -> (r: Result<CrudMatrixResult, String>)
    ensures
        crud_result(r) == crud_of(space_data@, index_view(*source_files)),
{
    let ghost space = space_data@;
    let ghost sources = index_view(*source_files);
    assert(entity_views(space_data.entities@) == space.entities);
    let tables = find_table_classes(&space_data.entities, source_files);
    assert(table_views(tables@).len() == tables@.len());
    if tables.len() == 0 {
        return Err("No data classes found to build a CRUD matrix for".to_owned());
    }
    let (edges, called) = collect_calls(space_data);
    let statements = collect_statements(source_files);
    let (names, entry_points_analyzed) = collect_entries(&space_data.entities, &called);
    let entries = sorted_texts(&names);
    let ghost scene = scene_of(space, sources);
    let ghost ev = edge_views(edges@);
    let ghost entry_list = texts(entries@);
    let ghost expected = entry_list.map_values(|e: Seq<char>| observed(scene, reached(ev, e)));
    let mut seen: Vec<Vec<Observation>> = Vec::new();
    let mut i: usize = 0;
    assert(all_seen(seen@) =~= expected.take(0));
    while i < entries.len()
        invariant
            scene == (Scene {
                entities: entity_views(space_data.entities@),
                tables: table_views(tables@),
                sources: index_view(*source_files),
                statements: statement_views(statements@),
            }),
            ev == edge_views(edges@),
            entry_list == texts(entries@),
            expected == entry_list.map_values(|e: Seq<char>| observed(scene, reached(ev, e))),
            i <= entries@.len(),
            seen@.len() == i,
            all_seen(seen@) == expected.take(i as int),
        decreases entries.len() - i,
    {
        let ghost before = all_seen(seen@);
        assert(entry_list[i as int] == entries@[i as int]@);
        let reach = reachable_from(&edges, entries[i].as_str());
        let own = observe_all(&space_data.entities, &tables, source_files, &statements, &reach);
        let ghost o = seen_views(own@);
        seen.push(own);
        i = i + 1;
        assert(all_seen(seen@) =~= before.push(o));
        assert(all_seen(seen@) =~= expected.take(i as int));
    }
    assert(expected.take(i as int) =~= expected);
    let ghost tv = table_views(tables@);
    let mut rows: Vec<TableCrud> = Vec::new();
    let mut k: usize = 0;
    assert(row_views(rows@) =~= Seq::empty());
    while k < tables.len()
        invariant
            tv == table_views(tables@),
            entry_list == texts(entries@),
            seen@.len() == entries@.len(),
            expected == all_seen(seen@),
            k <= tables@.len(),
            row_views(rows@) == matrix_rows(tv, entry_list, expected, k as int),
        decreases tables.len() - k,
    {
        let t = &tables[k];
        assert(tv[k as int] == t@);
        let own = list_entries(t.class_fqn.as_str(), &entries, &seen);
        assert(entry_list.len() == entries@.len());
        assert(crud_views(own@).len() == own@.len());
        if own.len() > 0 {
            let ghost before = row_views(rows@);
            let row = TableCrud {
                table_class: t.class_fqn.clone(),
                table_name: t.table_name.clone(),
                entries: own,
            };
            let ghost rv = row@;
            rows.push(row);
            assert(row_views(rows@) =~= before.push(rv));
        }
        k = k + 1;
    }
    Ok(
        CrudMatrixResult {
            tables: rows,
            entry_points_analyzed,
            note: "Operations are derived from SQL statements (in Java strings, .sql files, and MyBatis mapper XML) and repository naming conventions, reached from each entry point over the resolved call graph. Unresolved calls may hide operations — check the unknowns tool for gaps.".to_owned(),
        },
    )
}

} // verus!
