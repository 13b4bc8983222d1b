//! Where the columns of a table are said to be read and written.

use vstd::prelude::*;

use crate::lift::symbolic::last_segment;
use crate::lines::{begins, ends, free_at, lines, trimmed, trimmed_start};
use crate::model::entity::JavaEntityType;
use crate::model::space_data::{EntityView, SpaceView};
use crate::order::{lemma_stable_sorted_contains, stable_sorted};
use crate::query::column_usage::{
    all_sites, attribute_in, attribute_name, attribute_named, attribute_type, by_place, by_usage, can_name,
    class_of_file, column_info, column_name_of, columns_of, comment_on, field_named, is_column, is_shown, java_writes,
    line_reads, line_writes, site, sites_in, table_class_in, table_facts, usage_of, AttributeView, ColumnInfoView,
    ColumnNames, ColumnUsageResultView, TableFacts, UsageSiteView,
};
use crate::query::crud::table_of;
use crate::query::java::{access_at, assigns, capitalized, find_access, write_at, FieldView};
use crate::query::sql::{access_of_column, access_of_table, SqlAccess};
use crate::seqs::{lemma_plus_contains, lemma_push_contains};
use crate::text::{find, has, is_space, joined, lemma_find, lowercase, occurs_at, skip_space, uppercase, words};
use crate::text_laws::{are_free_of, law_pieces_of_joined};

verus! {

/// A text stands somewhere in a line.
pub open spec fn holds(line: Seq<char>, text: Seq<char>) -> bool {
    exists|k: int| #[trigger] occurs_at(line, text, k)
}

/// `.field` stands at `k`, then blanks, then `=` and no second one.
pub open spec fn assigned_at(line: Seq<char>, field: Seq<char>, k: int, e: int) -> bool {
    &&& occurs_at(line, "."@ + field, k)
    &&& k + 1 + field.len() <= e < line.len()
    &&& forall|j: int| k + 1 + field.len() <= j < e ==> is_space(#[trigger] line[j])
    &&& free_at(line, k + 1 + field.len())
    &&& line[e] == '='
    &&& e + 1 < line.len() ==> line[e + 1] != '='
}

/// The line sets the field, or assigns to it.
pub open spec fn sets_field(line: Seq<char>, field: Seq<char>) -> bool {
    ||| holds(line, "."@ + field + ".setValue"@)
    ||| holds(line, "."@ + field + ".set("@)
    ||| holds(line, ".set"@ + capitalized(field) + "("@)
    ||| exists|k: int, e: int| #[trigger] assigned_at(line, field, k, e)
}

/// The line gets the field.
pub open spec fn gets_field(line: Seq<char>, field: Seq<char>) -> bool {
    ||| holds(line, "."@ + field + ".getValue"@)
    ||| holds(line, "."@ + field + ".get("@)
    ||| holds(line, "."@ + field + ".toString"@)
    ||| holds(line, ".get"@ + capitalized(field) + "("@)
    ||| holds(line, ".is"@ + capitalized(field) + "("@)
}

/// The line names the field as `.field`.
pub open spec fn names_field(line: Seq<char>, field: Seq<char>) -> bool {
    exists|k: int| #[trigger] occurs_at(line, "."@ + field, k) && free_at(line, k + 1 + field.len())
}

/// A line of SQL on the table accesses the column.
pub open spec fn sql_uses(line: Seq<char>, table: Seq<char>, column: Seq<char>, access: SqlAccess) -> bool {
    access_of_table(uppercase(line), uppercase(table)) is Some && access_of_column(uppercase(line), uppercase(column))
        == Some(access)
}

proof fn lemma_holds(line: Seq<char>, text: Seq<char>)
    ensures
        has(line, text) <==> holds(line, text),
{
    lemma_find(line, text, 0);
}

proof fn lemma_blanks(s: Seq<char>, i: int, e: int)
    requires
        0 <= i <= e < s.len(),
        forall|j: int| i <= j < e ==> is_space(#[trigger] s[j]),
        !is_space(s[e]),
    ensures
        skip_space(s, i) == e,
    decreases e - i,
{
    if i < e {
        lemma_blanks(s, i + 1, e);
    }
}

proof fn lemma_skipped(s: Seq<char>, i: int)
    requires
        0 <= i <= s.len(),
    ensures
        i <= skip_space(s, i) <= s.len(),
        forall|j: int| i <= j < skip_space(s, i) ==> is_space(#[trigger] s[j]),
    decreases s.len() - i,
{
    if i < s.len() && is_space(s[i]) {
        lemma_skipped(s, i + 1);
    }
}

proof fn lemma_assigned(line: Seq<char>, field: Seq<char>)
    ensures
        (exists|i: int| 0 <= i < line.len() && #[trigger] write_at(line, field, i)) <==> exists|k: int, e: int| #[trigger]
            assigned_at(line, field, k, e),
{
    reveal_strlit(".");
    reveal_strlit("=");
    reveal_strlit("==");
    if exists|i: int| 0 <= i < line.len() && #[trigger] write_at(line, field, i) {
        let i = choose|i: int| 0 <= i < line.len() && #[trigger] write_at(line, field, i);
        let from = i + field.len() + 1;
        let rest = line.skip(from);
        lemma_skipped(rest, 0);
        let n = skip_space(rest, 0);
        let after = trimmed_start(rest);
        assert(after == rest.skip(n));
        assert(begins(after, "="@));
        assert(after.subrange(0, 1)[0] == after[0]);
        assert(after[0] == line[from + n]);
        assert forall|j: int| from <= j < from + n implies is_space(#[trigger] line[j]) by {
            assert(rest[j - from] == line[j]);
        }
        if from + n + 1 < line.len() && line[from + n + 1] == '=' {
            assert(after[1] == '=');
            assert(after.subrange(0, 2) =~= "=="@);
        }
        assert(assigned_at(line, field, i, from + n));
    }
    if exists|k: int, e: int| #[trigger] assigned_at(line, field, k, e) {
        let (k, e) = choose|k: int, e: int| #[trigger] assigned_at(line, field, k, e);
        let from = k + field.len() + 1;
        let rest = line.skip(from);
        assert forall|j: int| 0 <= j < e - from implies is_space(#[trigger] rest[j]) by {
            assert(rest[j] == line[j + from]);
        }
        assert(rest[e - from] == '=');
        lemma_blanks(rest, 0, e - from);
        let after = trimmed_start(rest);
        assert(after[0] == '=');
        assert(after.subrange(0, 1) =~= "="@);
        if begins(after, "=="@) {
            assert(after.subrange(0, 2)[1] == after[1]);
            assert(after[1] == line[e + 1]);
        }
        assert(write_at(line, field, k));
    }
}

proof fn lemma_access_found(line: Seq<char>, field: Seq<char>, from: int)
    requires
        0 <= from,
    ensures
        find_access(line, field, from) is Some <==> exists|k: int|
            from <= k && #[trigger] occurs_at(line, "."@ + field, k) && free_at(line, k + 1 + field.len()),
    decreases line.len() - from,
{
    reveal_strlit(".");
    if from < line.len() {
        if !access_at(line, field, from) {
            lemma_access_found(line, field, from + 1);
        }
    }
}

/// What is said of a line is what it shows.
proof fn lemma_line(line: Seq<char>, names: ColumnNames)
    ensures
        line_writes(line, names) <==> sets_field(line, names.field) || sql_uses(
            line,
            names.table,
            names.column,
            SqlAccess::Write,
        ),
        line_reads(line, names) <==> gets_field(line, names.field) || (!sets_field(line, names.field) && names_field(
            line,
            names.field,
        )) || sql_uses(line, names.table, names.column, SqlAccess::Read),
{
    let f = names.field;
    lemma_holds(line, "."@ + f + ".setValue"@);
    lemma_holds(line, "."@ + f + ".set("@);
    lemma_holds(line, ".set"@ + capitalized(f) + "("@);
    lemma_holds(line, "."@ + f + ".getValue"@);
    lemma_holds(line, "."@ + f + ".get("@);
    lemma_holds(line, "."@ + f + ".toString"@);
    lemma_holds(line, ".get"@ + capitalized(f) + "("@);
    lemma_holds(line, ".is"@ + capitalized(f) + "("@);
    lemma_assigned(line, f);
    lemma_access_found(line, f, 0);
    assert(java_writes(line, f) == sets_field(line, f));
    if names_field(line, f) {
        let k = choose|k: int| #[trigger] occurs_at(line, "."@ + f, k) && free_at(line, k + 1 + f.len());
        assert(0 <= k);
    }
}

/// A site on a line, counted from one.
pub open spec fn site_at(path: Seq<char>, i: int, access_type: Seq<char>) -> UsageSiteView {
    UsageSiteView { fqn: class_of_file(path), file: path, line: (i + 1) as u32, access_type }
}

spec fn shown(line: Seq<char>, names: ColumnNames, writing: bool) -> Option<Seq<char>> {
    let writes = line_writes(line, names);
    let reads = line_reads(line, names);
    if writing && writes {
        Some(
            if reads {
                "read_write"@
            } else {
                "write"@
            },
        )
    } else if !writing && !writes && reads {
        Some("read"@)
    } else {
        None
    }
}

spec fn site_fits(path: Seq<char>, all: Seq<Seq<char>>, names: ColumnNames, writing: bool, x: UsageSiteView, i: int) -> bool {
    0 <= i < all.len() && shown(all[i], names, writing) is Some && x == site_at(
        path,
        i,
        shown(all[i], names, writing)->0,
    )
}

proof fn lemma_site_is(path: Seq<char>, all: Seq<Seq<char>>, names: ColumnNames, writing: bool, x: UsageSiteView) -> (i: int)
    requires
        all.len() <= u32::MAX,
        sites_in(path, all, names, writing).contains(x),
    ensures
        site_fits(path, all, names, writing, x, i),
    decreases all.len(),
{
    if all.len() > 0 {
        let fewer = all.drop_last();
        let before = sites_in(path, fewer, names, writing);
        if before.contains(x) {
            let i = lemma_site_is(path, fewer, names, writing, x);
            assert(all[i] == fewer[i]);
            i
        } else {
            lemma_push_contains(before, x);
            let now = sites_in(path, all, names, writing);
            let j = choose|j: int| 0 <= j < now.len() && now[j] == x;
            if j < before.len() {
                assert(before[j] == x);
            }
            all.len() - 1
        }
    } else {
        0
    }
}

proof fn lemma_site_of(path: Seq<char>, all: Seq<Seq<char>>, names: ColumnNames, writing: bool, i: int)
    requires
        all.len() <= u32::MAX,
        0 <= i < all.len(),
        shown(all[i], names, writing) is Some,
    ensures
        sites_in(path, all, names, writing).contains(site_at(path, i, shown(all[i], names, writing)->0)),
    decreases all.len(),
{
    let fewer = all.drop_last();
    let before = sites_in(path, fewer, names, writing);
    let now = sites_in(path, all, names, writing);
    let x = site_at(path, i, shown(all[i], names, writing)->0);
    if i < fewer.len() {
        assert(fewer[i] == all[i]);
        lemma_site_of(path, fewer, names, writing, i);
        let j = choose|j: int| 0 <= j < before.len() && before[j] == x;
        assert(now[j] == x);
    } else {
        assert(now[before.len() as int] == x);
    }
}

proof fn lemma_file_of(
    sources: Seq<(Seq<char>, Seq<char>)>,
    own: Seq<char>,
    names: ColumnNames,
    writing: bool,
    x: UsageSiteView,
) -> (s: int)
    requires
        all_sites(sources, own, names, writing).contains(x),
    ensures
        0 <= s < sources.len(),
        !ends(sources[s].0, own),
        sites_in(sources[s].0, lines(sources[s].1), names, writing).contains(x),
    decreases sources.len(),
{
    if sources.len() > 0 {
        let before = all_sites(sources.drop_last(), own, names, writing);
        let (path, content) = sources.last();
        if before.contains(x) {
            lemma_file_of(sources.drop_last(), own, names, writing, x)
        } else {
            lemma_plus_contains(before, sites_in(path, lines(content), names, writing));
            sources.len() - 1
        }
    } else {
        0
    }
}

proof fn lemma_in_file(
    sources: Seq<(Seq<char>, Seq<char>)>,
    own: Seq<char>,
    names: ColumnNames,
    writing: bool,
    s: int,
    x: UsageSiteView,
)
    requires
        0 <= s < sources.len(),
        !ends(sources[s].0, own),
        sites_in(sources[s].0, lines(sources[s].1), names, writing).contains(x),
    ensures
        all_sites(sources, own, names, writing).contains(x),
    decreases sources.len(),
{
    let before = all_sites(sources.drop_last(), own, names, writing);
    let (path, content) = sources.last();
    lemma_plus_contains(before, sites_in(path, lines(content), names, writing));
    if s < sources.len() - 1 {
        lemma_in_file(sources.drop_last(), own, names, writing, s, x);
    }
}

/// No two sources have the same path, and no source has too many lines to
/// number.
pub open spec fn are_sources(sources: Seq<(Seq<char>, Seq<char>)>) -> bool {
    &&& forall|a: int, b: int| 0 <= a < b < sources.len() ==> (#[trigger] sources[a]).0 != (#[trigger] sources[b]).0
    &&& forall|a: int| 0 <= a < sources.len() ==> lines((#[trigger] sources[a]).1).len() <= u32::MAX
}

/// Some site is on the line of the file.
pub open spec fn has_site(list: Seq<UsageSiteView>, path: Seq<char>, i: int) -> bool {
    exists|j: int| 0 <= j < list.len() && (#[trigger] list[j]).file == path && list[j].line == i + 1
}

spec fn names_of(facts: TableFacts, field: Seq<char>) -> ColumnNames {
    ColumnNames { field, column: column_name_of(facts, field), table: facts.table }
}

proof fn lemma_column(
    entities: Seq<EntityView>,
    class_fqn: Seq<char>,
    facts: TableFacts,
    sources: Seq<(Seq<char>, Seq<char>)>,
    info: ColumnInfoView,
) -> (i: int)
    requires
        columns_of(entities, class_fqn, facts, sources).contains(info),
    ensures
        0 <= i < entities.len(),
        is_column(entities[i], class_fqn),
        is_shown(facts, info),
        info == column_info(facts, last_segment(entities[i].fqn), sources),
    decreases entities.len(),
{
    if entities.len() > 0 {
        let before = columns_of(entities.drop_last(), class_fqn, facts, sources);
        if before.contains(info) {
            lemma_column(entities.drop_last(), class_fqn, facts, sources, info)
        } else {
            let own = column_info(facts, last_segment(entities.last().fqn), sources);
            lemma_push_contains(before, own);
            entities.len() - 1
        }
    } else {
        0
    }
}

proof fn lemma_column_listed(
    entities: Seq<EntityView>,
    class_fqn: Seq<char>,
    facts: TableFacts,
    sources: Seq<(Seq<char>, Seq<char>)>,
    i: int,
)
    requires
        0 <= i < entities.len(),
        is_column(entities[i], class_fqn),
        is_shown(facts, column_info(facts, last_segment(entities[i].fqn), sources)),
    ensures
        columns_of(entities, class_fqn, facts, sources).contains(
            column_info(facts, last_segment(entities[i].fqn), sources),
        ),
    decreases entities.len(),
{
    let before = columns_of(entities.drop_last(), class_fqn, facts, sources);
    let last = column_info(facts, last_segment(entities.last().fqn), sources);
    lemma_push_contains(before, last);
    if i < entities.len() - 1 {
        lemma_column_listed(entities.drop_last(), class_fqn, facts, sources, i);
    }
}

/// The use of a column is found on the lines of the other files. A line that
/// sets the field or assigns to it, or SQL on the table that writes the
/// column, is among the writers and not among the readers; a line that only
/// gets or names the field, or SQL that reads the column, is among the
/// readers; no other line is among either.
pub proof fn law_column_sites(
    space: SpaceView,
    table: Seq<char>,
    sources: Seq<(Seq<char>, Seq<char>)>,
    r: ColumnUsageResultView,
    c: int,
    s: int,
    i: int,
)
    requires
        usage_of(space, table, lowercase(table), sources) == Ok::<ColumnUsageResultView, Seq<char>>(r),
        are_sources(sources),
        0 <= c < r.columns.len(),
        0 <= s < sources.len(),
        !ends(sources[s].0, last_segment(r.table_class) + ".java"@),
        0 <= i < lines(sources[s].1).len(),
    ensures
        exists|e: int|
            0 <= e < space.entities.len() && (#[trigger] space.entities[e]).fqn == r.table_class && ({
                let line = lines(sources[s].1)[i];
                let field = r.columns[c].field_name;
                let sql = table_of(space.entities[e], sources).table_name;
                let writes = sets_field(line, field) || sql_uses(line, sql, r.columns[c].column_name, SqlAccess::Write);
                let reads = gets_field(line, field) || (!sets_field(line, field) && names_field(line, field)) || sql_uses(
                    line,
                    sql,
                    r.columns[c].column_name,
                    SqlAccess::Read,
                );
                &&& has_site(r.columns[c].writers, sources[s].0, i) <==> writes
                &&& has_site(r.columns[c].readers, sources[s].0, i) <==> reads && !writes
                &&& writes && reads ==> r.columns[c].writers.contains(site_at(sources[s].0, i, "read_write"@))
                &&& writes && !reads ==> r.columns[c].writers.contains(site_at(sources[s].0, i, "write"@))
                &&& reads && !writes ==> r.columns[c].readers.contains(site_at(sources[s].0, i, "read"@))
            }),
{
    let e = table_class_in(space.entities, lowercase(table))->0;
    lemma_table_class(space.entities, lowercase(table));
    let class = space.entities[e];
    let facts = table_facts(class, sources);
    let columns = columns_of(space.entities, class.fqn, facts, sources);
    let info = r.columns[c];
    lemma_stable_sorted_contains(columns, by_usage());
    assert(r.columns.contains(info));
    let k = lemma_column(space.entities, class.fqn, facts, sources, info);
    let names = names_of(facts, info.field_name);
    let (path, content) = sources[s];
    let all = lines(content);
    let line = all[i];
    lemma_line(line, names);
    let ws = all_sites(sources, facts.own_file, names, true);
    let rs = all_sites(sources, facts.own_file, names, false);
    lemma_stable_sorted_contains(ws, by_place());
    lemma_stable_sorted_contains(rs, by_place());
    assert(info.writers == stable_sorted(ws, by_place()));
    assert(info.readers == stable_sorted(rs, by_place()));
    lemma_sites_of_line(sources, facts.own_file, names, true, s, i, info.writers);
    lemma_sites_of_line(sources, facts.own_file, names, false, s, i, info.readers);
    assert(class.fqn == r.table_class);
}

proof fn lemma_sites_of_line(
    sources: Seq<(Seq<char>, Seq<char>)>,
    own: Seq<char>,
    names: ColumnNames,
    writing: bool,
    s: int,
    i: int,
    list: Seq<UsageSiteView>,
)
    requires
        are_sources(sources),
        0 <= s < sources.len(),
        !ends(sources[s].0, own),
        0 <= i < lines(sources[s].1).len(),
        forall|x: UsageSiteView| #[trigger] list.contains(x) <==> all_sites(sources, own, names, writing).contains(x),
    ensures
        has_site(list, sources[s].0, i) <==> shown(lines(sources[s].1)[i], names, writing) is Some,
        shown(lines(sources[s].1)[i], names, writing) matches Some(kind) ==> list.contains(
            site_at(sources[s].0, i, kind),
        ),
{
    let (path, content) = sources[s];
    let all = lines(content);
    assert(lines(sources[s].1).len() <= u32::MAX);
    if let Some(kind) = shown(all[i], names, writing) {
        lemma_site_of(path, all, names, writing, i);
        lemma_in_file(sources, own, names, writing, s, site_at(path, i, kind));
        assert(list.contains(site_at(path, i, kind)));
        let j = choose|j: int| 0 <= j < list.len() && list[j] == site_at(path, i, kind);
        assert(list[j].file == path);
    }
    if has_site(list, path, i) {
        let j = choose|j: int| 0 <= j < list.len() && (#[trigger] list[j]).file == path && list[j].line == i + 1;
        let x = list[j];
        assert(list.contains(x));
        let at = lemma_file_of(sources, own, names, writing, x);
        assert(lines(sources[at].1).len() <= u32::MAX);
        let k = lemma_site_is(sources[at].0, lines(sources[at].1), names, writing, x);
        if at < s {
            assert(sources[at].0 != sources[s].0);
        } else if s < at {
            assert(sources[s].0 != sources[at].0);
        }
        assert(at == s);
        assert(k == i);
    }
}

proof fn lemma_table_class(entities: Seq<EntityView>, lower: Seq<char>)
    ensures
        table_class_in(entities, lower) matches Some(i) ==> 0 <= i < entities.len() && entities[i].entity_type
            == JavaEntityType::Class && (ends(lowercase(entities[i].fqn), "."@ + lower) || lowercase(entities[i].fqn)
            == lower || lowercase(entities[i].label) == lower),
        table_class_in(entities, lower) is None ==> forall|i: int|
            0 <= i < entities.len() && (#[trigger] entities[i]).entity_type == JavaEntityType::Class ==> !ends(
                lowercase(entities[i].fqn),
                "."@ + lower,
            ) && lowercase(entities[i].fqn) != lower && lowercase(entities[i].label) != lower,
    decreases entities.len(),
{
    if entities.len() > 0 {
        lemma_table_class(entities.drop_last(), lower);
        assert forall|i: int| 0 <= i < entities.len() - 1 implies entities.drop_last()[i] == #[trigger] entities[i] by {}
    }
}

/// A table is found by the name of its class, qualified or not and ignoring
/// case; other names are refused.
pub proof fn law_table_is_found(space: SpaceView, table: Seq<char>, sources: Seq<(Seq<char>, Seq<char>)>)
    ensures
        match usage_of(space, table, lowercase(table), sources) {
            Ok(r) => exists|i: int|
                0 <= i < space.entities.len() && (#[trigger] space.entities[i]).fqn == r.table_class
                    && space.entities[i].entity_type == JavaEntityType::Class && (ends(
                    lowercase(r.table_class),
                    "."@ + lowercase(table),
                ) || lowercase(r.table_class) == lowercase(table) || lowercase(space.entities[i].label) == lowercase(
                    table,
                )),
            Err(e) => e == "Table class not found: "@ + table && forall|i: int|
                0 <= i < space.entities.len() && (#[trigger] space.entities[i]).entity_type == JavaEntityType::Class
                    ==> !ends(lowercase(space.entities[i].fqn), "."@ + lowercase(table)) && lowercase(
                    space.entities[i].fqn,
                ) != lowercase(table) && lowercase(space.entities[i].label) != lowercase(table),
        },
{
    lemma_table_class(space.entities, lowercase(table));
    if let Some(i) = table_class_in(space.entities, lowercase(table)) {
        assert(space.entities[i].fqn == usage_of(space, table, lowercase(table), sources)->Ok_0.table_class);
    }
}

/// Every field of the table class that is defined as a column, declared in the
/// class or used elsewhere is listed.
pub proof fn law_columns_listed(
    space: SpaceView,
    table: Seq<char>,
    sources: Seq<(Seq<char>, Seq<char>)>,
    t: int,
    i: int,
)
    requires
        table_class_in(space.entities, lowercase(table)) == Some(t),
        0 <= t < space.entities.len(),
        0 <= i < space.entities.len(),
        space.entities[i].entity_type == JavaEntityType::Field,
        begins(space.entities[i].fqn, space.entities[t].fqn),
        space.entities[i].fqn != space.entities[t].fqn,
        ({
            let facts = table_facts(space.entities[t], sources);
            let field = last_segment(space.entities[i].fqn);
            ||| exists|k: int| 0 <= k < facts.attributes.len() && (#[trigger] facts.attributes[k]).field_name == field
            ||| exists|k: int| 0 <= k < facts.fields.len() && (#[trigger] facts.fields[k]).field_name == field
            ||| column_info(facts, field, sources).readers.len() > 0
            ||| column_info(facts, field, sources).writers.len() > 0
        }),
    ensures
        usage_of(space, table, lowercase(table), sources) matches Ok(r) && exists|c: int|
            0 <= c < r.columns.len() && (#[trigger] r.columns[c]).field_name == last_segment(space.entities[i].fqn),
{
    let class = space.entities[t];
    let facts = table_facts(class, sources);
    let field = last_segment(space.entities[i].fqn);
    let info = column_info(facts, field, sources);
    lemma_attribute_named(facts.attributes, field);
    lemma_field_named(facts.fields, field);
    lemma_column_listed(space.entities, class.fqn, facts, sources, i);
    let all = columns_of(space.entities, class.fqn, facts, sources);
    lemma_stable_sorted_contains(all, by_usage());
    let r = usage_of(space, table, lowercase(table), sources)->Ok_0;
    assert(r.columns.contains(info));
    let c = choose|c: int| 0 <= c < r.columns.len() && r.columns[c] == info;
    assert(r.columns[c].field_name == field);
}

proof fn lemma_attribute_named(list: Seq<AttributeView>, name: Seq<char>)
    ensures
        match attribute_named(list, name) {
            Some(a) => exists|k: int|
                0 <= k < list.len() && #[trigger] list[k] == a && a.field_name == name && forall|j: int|
                    0 <= j < k ==> (#[trigger] list[j]).field_name != name,
            None => forall|j: int| 0 <= j < list.len() ==> (#[trigger] list[j]).field_name != name,
        },
    decreases list.len(),
{
    if list.len() > 0 {
        let front = list.drop_last();
        lemma_attribute_named(front, name);
        assert forall|j: int| 0 <= j < front.len() implies #[trigger] list[j] == front[j] by {}
        match attribute_named(front, name) {
            Some(a) => {
                let k = choose|k: int|
                    0 <= k < front.len() && #[trigger] front[k] == a && a.field_name == name && forall|j: int|
                        0 <= j < k ==> (#[trigger] front[j]).field_name != name;
                assert(list[k] == a);
                assert forall|j: int| 0 <= j < k implies (#[trigger] list[j]).field_name != name by {
                    assert(front[j].field_name != name);
                }
            },
            None => {
                assert(list[list.len() - 1] == list.last());
            },
        }
    }
}

proof fn lemma_field_named(list: Seq<FieldView>, name: Seq<char>)
    ensures
        match field_named(list, name) {
            Some(a) => exists|k: int|
                0 <= k < list.len() && #[trigger] list[k] == a && a.field_name == name && forall|j: int|
                    0 <= j < k ==> (#[trigger] list[j]).field_name != name,
            None => forall|j: int| 0 <= j < list.len() ==> (#[trigger] list[j]).field_name != name,
        },
    decreases list.len(),
{
    if list.len() > 0 {
        let front = list.drop_last();
        lemma_field_named(front, name);
        assert forall|j: int| 0 <= j < front.len() implies #[trigger] list[j] == front[j] by {}
        match field_named(front, name) {
            Some(a) => {
                let k = choose|k: int|
                    0 <= k < front.len() && #[trigger] front[k] == a && a.field_name == name && forall|j: int|
                        0 <= j < k ==> (#[trigger] front[j]).field_name != name;
                assert(list[k] == a);
                assert forall|j: int| 0 <= j < k implies (#[trigger] list[j]).field_name != name by {
                    assert(front[j].field_name != name);
                }
            },
            None => {
                assert(list[list.len() - 1] == list.last());
            },
        }
    }
}

/// The first attribute that defines the field is at `k`.
pub open spec fn defines(list: Seq<AttributeView>, field: Seq<char>, k: int) -> bool {
    &&& 0 <= k < list.len()
    &&& list[k].field_name == field
    &&& forall|j: int| 0 <= j < k ==> (#[trigger] list[j]).field_name != field
}

/// The first declaration of the field is at `k`.
pub open spec fn declares(list: Seq<FieldView>, field: Seq<char>, k: int) -> bool {
    &&& 0 <= k < list.len()
    &&& list[k].field_name == field
    &&& forall|j: int| 0 <= j < k ==> (#[trigger] list[j]).field_name != field
}

/// What a column is called: an attribute that defines it says all of it;
/// without one, the annotation of the field names the column, its
/// documentation or else the comment of the database says what it is, and its
/// declaration gives the type; without a declaration the field stands for
/// itself.
pub proof fn law_column_names(facts: TableFacts, field: Seq<char>, sources: Seq<(Seq<char>, Seq<char>)>, k: int)
    ensures
        ({
            let info = column_info(facts, field, sources);
            let comment = comment_on(sources, facts.table, info.column_name);
            let undefined = forall|j: int| 0 <= j < facts.attributes.len() ==> (#[trigger] facts.attributes[j]).field_name != field;
            let undeclared = forall|j: int| 0 <= j < facts.fields.len() ==> (#[trigger] facts.fields[j]).field_name != field;
            &&& info.field_name == field
            &&& defines(facts.attributes, field, k) ==> info.column_name == facts.attributes[k].column_name
                && info.logical_name == facts.attributes[k].logical_name && info.data_type == facts.attributes[k].data_type
            &&& undefined && declares(facts.fields, field, k) ==> {
                let f = facts.fields[k];
                &&& info.data_type == f.declared_type
                &&& f.column_name matches Some(c) ==> info.column_name == c
                &&& f.column_name is None ==> info.column_name == field
                &&& f.doc matches Some(d) ==> info.logical_name == d
                &&& f.doc is None ==> (comment matches Some(c) ==> info.logical_name == c)
                &&& f.doc is None && comment is None ==> info.logical_name.len() == 0
            }
            &&& undefined && undeclared ==> {
                &&& info.column_name == field
                &&& info.data_type == "unknown"@
                &&& comment matches Some(c) ==> info.logical_name == c
                &&& comment is None ==> info.logical_name.len() == 0
            }
        }),
{
    lemma_attribute_named(facts.attributes, field);
    lemma_field_named(facts.fields, field);
    if defines(facts.attributes, field, k) {
        let a = attribute_named(facts.attributes, field)->Some_0;
        let m = choose|m: int|
            0 <= m < facts.attributes.len() && #[trigger] facts.attributes[m] == a && a.field_name == field && forall|j: int|
                0 <= j < m ==> (#[trigger] facts.attributes[j]).field_name != field;
        assert(m == k) by {
            if m < k {
                assert(facts.attributes[m].field_name != field);
            }
            if k < m {
                assert(facts.attributes[k].field_name != field);
            }
        }
    }
    if declares(facts.fields, field, k) {
        let a = field_named(facts.fields, field)->Some_0;
        let m = choose|m: int|
            0 <= m < facts.fields.len() && #[trigger] facts.fields[m] == a && a.field_name == field && forall|j: int|
                0 <= j < m ==> (#[trigger] facts.fields[j]).field_name != field;
        assert(m == k) by {
            if m < k {
                assert(facts.fields[m].field_name != field);
            }
            if k < m {
                assert(facts.fields[k].field_name != field);
            }
        }
    }
}

/// The type of a column by the words on the line that defines it.
pub proof fn law_attribute_type(line: Seq<char>)
    ensures
        ({
            let ty = attribute_type(line);
            let text = holds(line, "DataDomainString"@) || holds(line, "DataAttributeString"@);
            let number = holds(line, "DataDomainNumeric"@) || holds(line, "DataAttributeNumeric"@);
            let time = holds(line, "DataDomainDateTime"@) || holds(line, "DataAttributeDateTime"@);
            let blob = holds(line, "DataDomainBlob"@) || holds(line, "DataAttributeBlob"@);
            let flag = holds(line, "NumericFlag"@);
            &&& text ==> ty == "String"@
            &&& !text && number ==> ty == "Numeric"@
            &&& !text && !number && time ==> ty == "DateTime"@
            &&& !text && !number && !time && blob ==> ty == "Blob"@
            &&& !text && !number && !time && !blob && flag ==> ty == "Flag"@
            &&& !text && !number && !time && !blob && !flag ==> ty == "unknown"@
        }),
{
    lemma_holds(line, "DataDomainString"@);
    lemma_holds(line, "DataAttributeString"@);
    lemma_holds(line, "DataDomainNumeric"@);
    lemma_holds(line, "DataAttributeNumeric"@);
    lemma_holds(line, "DataDomainDateTime"@);
    lemma_holds(line, "DataAttributeDateTime"@);
    lemma_holds(line, "DataDomainBlob"@);
    lemma_holds(line, "DataAttributeBlob"@);
    lemma_holds(line, "NumericFlag"@);
}

/// A word that can name an attribute.
pub open spec fn names_attribute(word: Seq<char>) -> bool {
    &&& word.len() > 0
    &&& word != "="@
    &&& !occurs_at(word, "public"@, 0)
    &&& !occurs_at(word, "private"@, 0)
    &&& !occurs_at(word, "protected"@, 0)
    &&& !occurs_at(word, "DataAttribute"@, 0)
}

proof fn lemma_attribute_name(list: Seq<Seq<char>>, i: int, found: Seq<char>, n: int, k: int)
    requires
        0 <= i <= k < list.len(),
        -1 <= n < k,
        holds(list[k], "makeAttribute"@),
        forall|j: int| i <= j < k ==> !holds(#[trigger] list[j], "makeAttribute"@),
        forall|j: int| i <= j < k && n < j ==> !names_attribute(#[trigger] list[j]),
        n >= i ==> names_attribute(list[n]),
        0 <= n < i ==> found == list[n],
        n >= 0,
    ensures
        attribute_name(list, i, found) == list[n],
    decreases k - i,
{
    lemma_holds(list[i], "makeAttribute"@);
    if i < k {
        assert(!holds(list[i], "makeAttribute"@));
        if n < i {
            assert(!names_attribute(list[i]));
        }
        lemma_attribute_name(
            list,
            i + 1,
            if can_name(list[i]) {
                list[i]
            } else {
                found
            },
            n,
            k,
        );
    }
}

/// A line that makes an attribute defines a column: the field is the last word
/// before the call that can name one, and the call gives the logical name and
/// the name of the column between its first two pairs of quotes.
pub proof fn law_attribute_defined(line: Seq<char>, n: int, k: int, pos: int, parts: Seq<Seq<char>>)
    requires
        occurs_at(trimmed(line), "makeAttribute("@, pos),
        forall|j: int| 0 <= j < pos ==> !#[trigger] occurs_at(trimmed(line), "makeAttribute("@, j),
        0 <= n < k < words(trimmed(line)).len(),
        holds(words(trimmed(line))[k], "makeAttribute"@),
        forall|j: int| 0 <= j < k ==> !holds(#[trigger] words(trimmed(line))[j], "makeAttribute"@),
        names_attribute(words(trimmed(line))[n]),
        forall|j: int| n < j < k ==> !names_attribute(#[trigger] words(trimmed(line))[j]),
        are_free_of(parts, '"'),
        parts.len() >= 4,
        trimmed(line).skip(pos + "makeAttribute("@.len()) == joined(parts, seq!['"']),
    ensures
        attribute_in(line) matches Some(a) && a.field_name == words(trimmed(line))[n] && a.logical_name == parts[1]
            && a.column_name == parts[3],
{
    let t = trimmed(line);
    lemma_find(t, "makeAttribute("@, 0);
    let i = find(t, "makeAttribute("@, 0)->Some_0;
    assert(i == pos);
    lemma_attribute_name(words(t), 0, Seq::empty(), n, k);
    law_pieces_of_joined(parts, '"');
}

} // verus!
