//! Where the columns of a table class are read and written.

use vstd::prelude::*;

use crate::lift::symbolic::{last_segment, segment_after_dots};
use crate::lines::{
    begins, char_lists, drop_prefix, drop_suffix, ends, ends_with, lines, lines_of, opt_text,
    pieces, split_at_char, starts_with, trim, trimmed, without_prefix, without_suffix,
};
use crate::model::entity::JavaEntityType;
use crate::model::semantic::copy_opt;
use crate::model::space_data::{entry_of, index_view, EntityRecord, EntityView, SpaceData, SpaceView};
use crate::order::{lemma_sorted_map, sort_stable, stable_sorted, total_preorder};
use crate::query::crud::{table_name_of, table_of};
use crate::query::java::{
    capitalized, fields_in, find_access, getter_patterns, has_direct_field_access, is_direct_field_write,
    parse_field_declarations, setter_pattern, write_at, FieldDecl, FieldView,
};
use crate::query::resolve::entity_views;
use crate::query::sql::{
    access_of_column, access_of_table, column_access, is_sql_file, parse_create_tables, table_access, tables_in,
    ColumnView, SqlAccess, SqlColumnDef, SqlTableDef, TableDefView,
};
use crate::text::{
    at_most, byte_offset, chars_of, find, find_from, has, lemma_lex_total, lemma_lex_transitive, lex_le, lowercase, same,
    split_words, string_of, texts, uppercase, utf8_length, words,
};
use crate::text_map::{lookup, TextMap};

verus! {

#[derive(Debug)]
pub struct UsageSite {
    pub fqn: String,
    pub file: String,
    pub line: u32,
    pub access_type: String,
}

#[verifier::ext_equal]
pub struct UsageSiteView {
    pub fqn: Seq<char>,
    pub file: Seq<char>,
    pub line: u32,
    pub access_type: Seq<char>,
}

impl View for UsageSite {
    type V = UsageSiteView;

    open spec fn view(&self) -> UsageSiteView {
        UsageSiteView {
            fqn: self.fqn@,
            file: self.file@,
            line: self.line,
            access_type: self.access_type@,
        }
    }
}

#[derive(Debug)]
pub struct ColumnInfo {
    pub field_name: String,
    pub logical_name: String,
    pub column_name: String,
    pub data_type: String,
    pub readers: Vec<UsageSite>,
    pub writers: Vec<UsageSite>,
}

#[verifier::ext_equal]
pub struct ColumnInfoView {
    pub field_name: Seq<char>,
    pub logical_name: Seq<char>,
    pub column_name: Seq<char>,
    pub data_type: Seq<char>,
    pub readers: Seq<UsageSiteView>,
    pub writers: Seq<UsageSiteView>,
}

impl View for ColumnInfo {
    type V = ColumnInfoView;

    open spec fn view(&self) -> ColumnInfoView {
        ColumnInfoView {
            field_name: self.field_name@,
            logical_name: self.logical_name@,
            column_name: self.column_name@,
            data_type: self.data_type@,
            readers: self.readers@.map_values(|x: UsageSite| x@),
            writers: self.writers@.map_values(|x: UsageSite| x@),
        }
    }
}

#[derive(Debug)]
pub struct ColumnUsageResult {
    pub table_class: String,
    pub table_description: Option<String>,
    pub columns: Vec<ColumnInfo>,
    pub total_columns: usize,
}

#[verifier::ext_equal]
pub struct ColumnUsageResultView {
    pub table_class: Seq<char>,
    pub table_description: Option<Seq<char>>,
    pub columns: Seq<ColumnInfoView>,
    pub total_columns: usize,
}

impl View for ColumnUsageResult {
    type V = ColumnUsageResultView;

    open spec fn view(&self) -> ColumnUsageResultView {
        ColumnUsageResultView {
            table_class: self.table_class@,
            table_description: opt_text(self.table_description),
            columns: self.columns@.map_values(|x: ColumnInfo| x@),
            total_columns: self.total_columns,
        }
    }
}

/// A column that a `makeAttribute` call defines.
#[verifier::ext_equal]
pub struct AttributeView {
    pub field_name: Seq<char>,
    pub logical_name: Seq<char>,
    pub column_name: Seq<char>,
    pub data_type: Seq<char>,
}

/// A word that can be the name of the attribute.
pub open spec fn can_name(word: Seq<char>) -> bool {
    !begins(word, "public"@) && !begins(word, "private"@) && !begins(word, "protected"@) && !begins(
        word,
        "DataAttribute"@,
    ) && word != "="@ && word.len() > 0
}

/// The last word before the call, from `i` on, that can be a name.
pub open spec fn attribute_name(list: Seq<Seq<char>>, i: int, found: Seq<char>) -> Seq<char>
    decreases list.len() - i,
{
    if i >= list.len() || has(list[i], "makeAttribute"@) {
        found
    } else if can_name(list[i]) {
        attribute_name(list, i + 1, list[i])
    } else {
        attribute_name(list, i + 1, found)
    }
}

/// The type that the domain of an attribute stands for.
pub open spec fn attribute_type(line: Seq<char>) -> Seq<char> {
    if has(line, "DataDomainString"@) || has(line, "DataAttributeString"@) {
        "String"@
    } else if has(line, "DataDomainNumeric"@) || has(line, "DataAttributeNumeric"@) {
        "Numeric"@
    } else if has(line, "DataDomainDateTime"@) || has(line, "DataAttributeDateTime"@) {
        "DateTime"@
    } else if has(line, "DataDomainBlob"@) || has(line, "DataAttributeBlob"@) {
        "Blob"@
    } else if has(line, "NumericFlag"@) {
        "Flag"@
    } else {
        "unknown"@
    }
}

/// An element of a list; empty when there is none.
pub open spec fn piece_or_empty(parts: Seq<Seq<char>>, i: int) -> Seq<char> {
    if i < parts.len() {
        parts[i]
    } else {
        Seq::empty()
    }
}

/// The attribute that a line defines:
/// `public DataAttributeString NAME = makeAttribute("logical", "column", ..)`.
pub open spec fn attribute_in(line: Seq<char>) -> Option<AttributeView> {
    let t = trimmed(line);
    match find(t, "makeAttribute("@, 0) {
        None => None,
        Some(pos) => {
            let name = attribute_name(words(t), 0, Seq::empty());
            let parts = pieces(t.skip(pos + "makeAttribute("@.len()), '"');
            if name.len() == 0 {
                None
            } else {
                Some(
                    AttributeView {
                        field_name: name,
                        logical_name: piece_or_empty(parts, 1),
                        column_name: piece_or_empty(parts, 3),
                        data_type: attribute_type(t),
                    },
                )
            }
        },
    }
}

pub open spec fn attributes_in(all: Seq<Seq<char>>) -> Seq<AttributeView>
    decreases all.len(),
{
    if all.len() == 0 {
        Seq::empty()
    } else {
        let before = attributes_in(all.drop_last());
        match attribute_in(all.last()) {
            Some(a) => before.push(a),
            None => before,
        }
    }
}

/// The first attribute of a name.
pub open spec fn attribute_named(attributes: Seq<AttributeView>, name: Seq<char>) -> Option<AttributeView>
    decreases attributes.len(),
{
    if attributes.len() == 0 {
        None
    } else {
        match attribute_named(attributes.drop_last(), name) {
            Some(a) => Some(a),
            None => if attributes.last().field_name == name {
                Some(attributes.last())
            } else {
                None
            },
        }
    }
}

/// The first declaration of a field.
pub open spec fn field_named(fields: Seq<FieldView>, name: Seq<char>) -> Option<FieldView>
    decreases fields.len(),
{
    if fields.len() == 0 {
        None
    } else {
        match field_named(fields.drop_last(), name) {
            Some(f) => Some(f),
            None => if fields.last().field_name == name {
                Some(fields.last())
            } else {
                None
            },
        }
    }
}

/// The comment on a column in a list of columns.
pub open spec fn comment_in(columns: Seq<ColumnView>, column: Seq<char>) -> Option<Seq<char>>
    decreases columns.len(),
{
    if columns.len() == 0 {
        None
    } else {
        match comment_in(columns.drop_last(), column) {
            Some(c) => Some(c),
            None => if uppercase(columns.last().column_name) == uppercase(column) {
                columns.last().comment
            } else {
                None
            },
        }
    }
}

/// The comment on a column of a table in a list of tables.
pub open spec fn comment_in_tables(tables: Seq<TableDefView>, table: Seq<char>, column: Seq<char>) -> Option<Seq<char>>
    decreases tables.len(),
{
    if tables.len() == 0 {
        None
    } else {
        match comment_in_tables(tables.drop_last(), table, column) {
            Some(c) => Some(c),
            None => if uppercase(tables.last().table_name) == uppercase(table) {
                comment_in(tables.last().columns, column)
            } else {
                None
            },
        }
    }
}

/// The comment on a column in the SQL files.
pub open spec fn comment_on(sources: Seq<(Seq<char>, Seq<char>)>, table: Seq<char>, column: Seq<char>) -> Option<
    Seq<char>,
>
    decreases sources.len(),
{
    if sources.len() == 0 {
        None
    } else {
        match comment_on(sources.drop_last(), table, column) {
            Some(c) => Some(c),
            None => if ends(lowercase(sources.last().0), ".sql"@) {
                comment_in_tables(tables_in(sources.last().1), table, column)
            } else {
                None
            },
        }
    }
}

/// A Java line writes a field.
pub open spec fn java_writes(line: Seq<char>, field: Seq<char>) -> bool {
    ||| has(line, "."@ + field + ".setValue"@)
    ||| has(line, "."@ + field + ".set("@)
    ||| has(line, ".set"@ + capitalized(field) + "("@)
    ||| exists|i: int| 0 <= i < line.len() && #[trigger] write_at(line, field, i)
}

/// A Java line reads a field: it gets its value, or names it without writing
/// it.
pub open spec fn java_reads(line: Seq<char>, field: Seq<char>) -> bool {
    ||| has(line, "."@ + field + ".getValue"@)
    ||| has(line, "."@ + field + ".get("@)
    ||| has(line, "."@ + field + ".toString"@)
    ||| has(line, ".get"@ + capitalized(field) + "("@)
    ||| has(line, ".is"@ + capitalized(field) + "("@)
    ||| !java_writes(line, field) && find_access(line, field, 0) is Some
}

/// How a line of SQL that touches the table accesses the column.
pub open spec fn sql_access(line: Seq<char>, table: Seq<char>, column: Seq<char>) -> Option<SqlAccess> {
    if access_of_table(uppercase(line), uppercase(table)) is Some {
        access_of_column(uppercase(line), uppercase(column))
    } else {
        None
    }
}

/// What a column is called: in Java, in the database, and its table.
#[verifier::ext_equal]
pub struct ColumnNames {
    pub field: Seq<char>,
    pub column: Seq<char>,
    pub table: Seq<char>,
}

pub open spec fn line_writes(line: Seq<char>, names: ColumnNames) -> bool {
    java_writes(line, names.field) || sql_access(line, names.table, names.column) == Some(SqlAccess::Write)
}

pub open spec fn line_reads(line: Seq<char>, names: ColumnNames) -> bool {
    java_reads(line, names.field) || sql_access(line, names.table, names.column) == Some(SqlAccess::Read)
}

/// The number of a line, counted from one.
pub open spec fn line_number(i: int) -> u32 {
    if i < u32::MAX {
        (i + 1) as u32
    } else {
        u32::MAX
    }
}

/// The class that a file path suggests.
pub open spec fn class_of_file(path: Seq<char>) -> Seq<char> {
    dotted_path(without_suffix(path, ".java"@))
}

/// A path with dots between its parts.
pub open spec fn dotted_path(path: Seq<char>) -> Seq<char>
    decreases path.len(),
{
    if path.len() == 0 {
        path
    } else {
        dotted_path(path.drop_last()).push(
            if path.last() == '/' || path.last() == '\\' {
                '.'
            } else {
                path.last()
            },
        )
    }
}

pub open spec fn site(path: Seq<char>, i: int, access_type: Seq<char>) -> UsageSiteView {
    UsageSiteView { fqn: class_of_file(path), file: path, line: line_number(i), access_type }
}

/// The reading, or the writing, lines among the first ones of a file.
pub open spec fn sites_in(path: Seq<char>, all: Seq<Seq<char>>, names: ColumnNames, writing: bool) -> Seq<UsageSiteView>
    decreases all.len(),
{
    if all.len() == 0 {
        Seq::empty()
    } else {
        let before = sites_in(path, all.drop_last(), names, writing);
        let i = all.len() - 1;
        let writes = line_writes(all.last(), names);
        let reads = line_reads(all.last(), names);
        if writing && writes {
            before.push(
                site(
                    path,
                    i,
                    if reads {
                        "read_write"@
                    } else {
                        "write"@
                    },
                ),
            )
        } else if !writing && !writes && reads {
            before.push(site(path, i, "read"@))
        } else {
            before
        }
    }
}

/// The sites in all files but the class's own.
pub open spec fn all_sites(
    sources: Seq<(Seq<char>, Seq<char>)>,
    own_file: Seq<char>,
    names: ColumnNames,
    writing: bool,
) -> Seq<UsageSiteView>
    decreases sources.len(),
{
    if sources.len() == 0 {
        Seq::empty()
    } else {
        let before = all_sites(sources.drop_last(), own_file, names, writing);
        let (path, content) = sources.last();
        if ends(path, own_file) {
            before
        } else {
            before + sites_in(path, lines(content), names, writing)
        }
    }
}

/// By file, then by line.
pub open spec fn by_place() -> spec_fn(UsageSiteView, UsageSiteView) -> bool {
    |a: UsageSiteView, b: UsageSiteView|
        if a.file == b.file {
            a.line <= b.line
        } else {
            lex_le(a.file, b.file)
        }
}

/// A field of the class.
pub open spec fn is_column(e: EntityView, class_fqn: Seq<char>) -> bool {
    begins(e.fqn, class_fqn) && e.fqn != class_fqn && e.entity_type == JavaEntityType::Field
}

/// What is known of the table class beforehand.
#[verifier::ext_equal]
pub struct TableFacts {
    pub own_file: Seq<char>,
    pub table: Seq<char>,
    pub attributes: Seq<AttributeView>,
    pub fields: Seq<FieldView>,
}

pub open spec fn table_facts(class: EntityView, sources: Seq<(Seq<char>, Seq<char>)>) -> TableFacts {
    let source = class_source(class, sources);
    TableFacts {
        own_file: last_segment(class.fqn) + ".java"@,
        table: table_of(class, sources).table_name,
        attributes: attributes_in(lines(source)),
        fields: fields_in(source),
    }
}

/// The source of a class; empty when it is not at hand.
pub open spec fn class_source(class: EntityView, sources: Seq<(Seq<char>, Seq<char>)>) -> Seq<char> {
    match lookup(sources, class.witness.file) {
        Some(s) => s,
        None => Seq::empty(),
    }
}

pub open spec fn column_name_of(facts: TableFacts, field: Seq<char>) -> Seq<char> {
    match attribute_named(facts.attributes, field) {
        Some(a) => a.column_name,
        None => match field_named(facts.fields, field) {
            Some(f) => match f.column_name {
                Some(c) => c,
                None => field,
            },
            None => field,
        },
    }
}

pub open spec fn logical_name_of(facts: TableFacts, field: Seq<char>, sources: Seq<(Seq<char>, Seq<char>)>) -> Seq<
    char,
> {
    let comment = match comment_on(sources, facts.table, column_name_of(facts, field)) {
        Some(c) => c,
        None => Seq::empty(),
    };
    match attribute_named(facts.attributes, field) {
        Some(a) => a.logical_name,
        None => match field_named(facts.fields, field) {
            Some(f) => match f.doc {
                Some(d) => d,
                None => comment,
            },
            None => comment,
        },
    }
}

pub open spec fn data_type_of(facts: TableFacts, field: Seq<char>) -> Seq<char> {
    match attribute_named(facts.attributes, field) {
        Some(a) => a.data_type,
        None => match field_named(facts.fields, field) {
            Some(f) => f.declared_type,
            None => "unknown"@,
        },
    }
}

/// What is known of a column.
pub open spec fn column_info(facts: TableFacts, field: Seq<char>, sources: Seq<(Seq<char>, Seq<char>)>) -> ColumnInfoView {
    let names = ColumnNames { field, column: column_name_of(facts, field), table: facts.table };
    ColumnInfoView {
        field_name: field,
        logical_name: logical_name_of(facts, field, sources),
        column_name: names.column,
        data_type: data_type_of(facts, field),
        readers: stable_sorted(all_sites(sources, facts.own_file, names, false), by_place()),
        writers: stable_sorted(all_sites(sources, facts.own_file, names, true), by_place()),
    }
}

/// A column that is used, or whose definition is at hand.
pub open spec fn is_shown(facts: TableFacts, info: ColumnInfoView) -> bool {
    info.readers.len() > 0 || info.writers.len() > 0 || attribute_named(facts.attributes, info.field_name) is Some
        || field_named(facts.fields, info.field_name) is Some
}

/// The columns of a class among the first entities.
pub open spec fn columns_of(
    entities: Seq<EntityView>,
    class_fqn: Seq<char>,
    facts: TableFacts,
    sources: Seq<(Seq<char>, Seq<char>)>,
) -> Seq<ColumnInfoView>
    decreases entities.len(),
{
    if entities.len() == 0 {
        Seq::empty()
    } else {
        let before = columns_of(entities.drop_last(), class_fqn, facts, sources);
        let info = column_info(facts, last_segment(entities.last().fqn), sources);
        if is_column(entities.last(), class_fqn) && is_shown(facts, info) {
            before.push(info)
        } else {
            before
        }
    }
}

/// The most used first.
pub open spec fn by_usage() -> spec_fn(ColumnInfoView, ColumnInfoView) -> bool {
    |a: ColumnInfoView, b: ColumnInfoView|
        a.readers.len() + a.writers.len() >= b.readers.len() + b.writers.len()
}

/// A line that describes a class in its javadoc.
pub open spec fn description_in(line: Seq<char>) -> Option<Seq<char>> {
    let t = trimmed(line);
    let text = trimmed(without_prefix(t, "* "@));
    if begins(t, "* "@) && !begins(t, "* @"@) && utf8_length(t) > 2 && text.len() > 0 {
        Some(text)
    } else {
        None
    }
}

/// The first description in the javadoc.
pub open spec fn description_of(all: Seq<Seq<char>>) -> Option<Seq<char>>
    decreases all.len(),
{
    if all.len() == 0 {
        None
    } else {
        match description_of(all.drop_last()) {
            Some(d) => Some(d),
            None => description_in(all.last()),
        }
    }
}

/// A class of the given name, which is in lower case.
pub open spec fn is_table_class(e: EntityView, table_lower: Seq<char>) -> bool {
    e.entity_type == JavaEntityType::Class && (ends(lowercase(e.fqn), "."@ + table_lower) || lowercase(e.fqn)
        == table_lower || lowercase(e.label) == table_lower)
}

pub open spec fn table_class_in(entities: Seq<EntityView>, table_lower: Seq<char>) -> Option<int>
    decreases entities.len(),
{
    if entities.len() == 0 {
        None
    } else {
        match table_class_in(entities.drop_last(), table_lower) {
            Some(i) => Some(i),
            None => if is_table_class(entities.last(), table_lower) {
                Some(entities.len() - 1)
            } else {
                None
            },
        }
    }
}

/// The use of a table's columns; the table is given in lower case too.
pub open spec fn usage_of(
    space: SpaceView,
    table: Seq<char>,
    table_lower: Seq<char>,
    sources: Seq<(Seq<char>, Seq<char>)>,
) -> Result<ColumnUsageResultView, Seq<char>> {
    match table_class_in(space.entities, table_lower) {
        None => Err("Table class not found: "@ + table),
        Some(i) => {
            let class = space.entities[i];
            let columns = columns_of(space.entities, class.fqn, table_facts(class, sources), sources);
            Ok(
                ColumnUsageResultView {
                    table_class: class.fqn,
                    table_description: description_of(lines(class_source(class, sources))),
                    columns: stable_sorted(columns, by_usage()),
                    total_columns: columns.len() as usize,
                },
            )
        },
    }
}

pub open spec fn usage_result(r: Result<ColumnUsageResult, String>) -> Result<ColumnUsageResultView, Seq<char>> {
    match r {
        Ok(x) => Ok(x@),
        Err(e) => Err(e@),
    }
}

/// A column that a `makeAttribute` call defines.
#[derive(Debug)]
struct Attribute {
    field_name: String,
    logical_name: String,
    column_name: String,
    data_type: String,
}

impl View for Attribute {
    type V = AttributeView;

    closed spec fn view(&self) -> AttributeView {
        AttributeView {
            field_name: self.field_name@,
            logical_name: self.logical_name@,
            column_name: self.column_name@,
            data_type: self.data_type@,
        }
    }
}

spec fn attribute_views(v: Seq<Attribute>) -> Seq<AttributeView> {
    v.map_values(|a: Attribute| a@)
}

spec fn field_views(v: Seq<FieldDecl>) -> Seq<FieldView> {
    v.map_values(|d: FieldDecl| d@)
}

fn holds(chars: &[char], pattern: &str) -> (r: bool)
    ensures
        r == has(chars@, pattern@),
{
    find_from(chars, pattern, 0).is_some()
}

fn find_attribute_name(list: &Vec<String>) -> (r: String)
    ensures
        r@ == attribute_name(texts(list@), 0, Seq::empty()),
{
    let ghost all = texts(list@);
    let mut found = String::new();
    let mut i: usize = 0;
    assert(found@ =~= Seq::empty());
    while i < list.len()
        invariant
            all == texts(list@),
            i <= list@.len(),
            attribute_name(all, 0, Seq::empty()) == attribute_name(all, i as int, found@),
        decreases list.len() - i,
    {
        assert(all[i as int] == list@[i as int]@);
        let chars = chars_of(list[i].as_str());
        let word = chars.as_slice();
        if holds(word, "makeAttribute") {
            return found;
        }
        if !starts_with(word, "public") && !starts_with(word, "private") && !starts_with(word, "protected")
            && !starts_with(word, "DataAttribute") && !same(list[i].as_str(), "=") && word.len() > 0 {
            found = list[i].clone();
        }
        i = i + 1;
    }
    found
}

fn find_attribute_type(line: &[char]) -> (r: &'static str)
    ensures
        r@ == attribute_type(line@),
{
    if holds(line, "DataDomainString") || holds(line, "DataAttributeString") {
        "String"
    } else if holds(line, "DataDomainNumeric") || holds(line, "DataAttributeNumeric") {
        "Numeric"
    } else if holds(line, "DataDomainDateTime") || holds(line, "DataAttributeDateTime") {
        "DateTime"
    } else if holds(line, "DataDomainBlob") || holds(line, "DataAttributeBlob") {
        "Blob"
    } else if holds(line, "NumericFlag") {
        "Flag"
    } else {
        "unknown"
    }
}

fn piece_at(parts: &Vec<String>, i: usize) -> (r: String)
    ensures
        r@ == piece_or_empty(texts(parts@), i as int),
{
    assert(texts(parts@).len() == parts@.len());
    if i < parts.len() {
        assert(texts(parts@)[i as int] == parts@[i as int]@);
        parts[i].clone()
    } else {
        let r = String::new();
        assert(r@ =~= Seq::empty());
        r
    }
}

spec fn opt_attribute(a: Option<Attribute>) -> Option<AttributeView> {
    match a {
        Some(a) => Some(a@),
        None => None,
    }
}

fn parse_attribute(line: &[char]) -> (r: Option<Attribute>)
    ensures
        opt_attribute(r) == attribute_in(line@),
{
    let t = trim(line);
    let n: usize = crate::lines::count_chars("makeAttribute(");
    let len: usize = t.len();
    match find_from(t, "makeAttribute(", 0) {
        None => None,
        Some(pos) => {
            let field_name = find_attribute_name(&split_words(t));
            if field_name.as_str().is_empty() {
                return None;
            }
            let rest = vstd::slice::slice_subrange(t, pos + n, len);
            assert(rest@ =~= t@.skip(pos + n));
            let parts = split_at_char(rest, '"');
            Some(
                Attribute {
                    field_name,
                    logical_name: piece_at(&parts, 1),
                    column_name: piece_at(&parts, 3),
                    data_type: find_attribute_type(t).to_owned(),
                },
            )
        },
    }
}

fn parse_make_attribute_calls(source: &str) -> (r: Vec<Attribute>)
    ensures
        attribute_views(r@) == attributes_in(lines(source@)),
{
    let list = lines_of(chars_of(source).as_slice());
    let ghost all = lines(source@);
    assert(char_lists(list@) == all);
    let mut r: Vec<Attribute> = Vec::new();
    let mut i: usize = 0;
    assert(attribute_views(r@) =~= attributes_in(all.take(0)));
    while i < list.len()
        invariant
            all == char_lists(list@),
            i <= list@.len(),
            attribute_views(r@) == attributes_in(all.take(i as int)),
        decreases list.len() - i,
    {
        assert(all[i as int] == list@[i as int]@);
        assert(all.take(i + 1).drop_last() =~= all.take(i as int));
        match parse_attribute(list[i].as_slice()) {
            Some(a) => {
                let ghost before = attribute_views(r@);
                let ghost av = a@;
                r.push(a);
                assert(attribute_views(r@) =~= before.push(av));
            },
            None => {},
        }
        i = i + 1;
    }
    assert(all.take(i as int) =~= all);
    r
}

proof fn lemma_find_attribute_prefix(all: Seq<AttributeView>, name: Seq<char>, i: int)
    requires
        0 <= i <= all.len(),
        attribute_named(all.take(i), name) is Some,
    ensures
        attribute_named(all, name) == attribute_named(all.take(i), name),
    decreases all.len() - i,
{
    if i < all.len() {
        assert(all.take(i + 1).drop_last() =~= all.take(i));
        lemma_find_attribute_prefix(all, name, i + 1);
    } else {
        assert(all.take(i) =~= all);
    }
}

fn find_attribute<'a>(all: &'a Vec<Attribute>, name: &str) -> (r: Option<&'a Attribute>)
    ensures
        match r {
            Some(a) => attribute_named(attribute_views(all@), name@) == Some(a@),
            None => attribute_named(attribute_views(all@), name@) is None,
        },
{
    let ghost list = attribute_views(all@);
    let mut i: usize = 0;
    while i < all.len()
        invariant
            i <= all@.len(),
            list == attribute_views(all@),
            attribute_named(list.take(i as int), name@) is None,
        decreases all.len() - i,
    {
        assert(list[i as int] == all@[i as int]@);
        assert(list.take(i + 1).drop_last() =~= list.take(i as int));
        if same(all[i].field_name.as_str(), name) {
            proof {
                lemma_find_attribute_prefix(list, name@, i + 1);
            }
            return Some(&all[i]);
        }
        i = i + 1;
    }
    assert(list.take(i as int) =~= list);
    None
}

proof fn lemma_find_field_prefix(all: Seq<FieldView>, name: Seq<char>, i: int)
    requires
        0 <= i <= all.len(),
        field_named(all.take(i), name) is Some,
    ensures
        field_named(all, name) == field_named(all.take(i), name),
    decreases all.len() - i,
{
    if i < all.len() {
        assert(all.take(i + 1).drop_last() =~= all.take(i));
        lemma_find_field_prefix(all, name, i + 1);
    } else {
        assert(all.take(i) =~= all);
    }
}

fn find_field<'a>(all: &'a Vec<FieldDecl>, name: &str) -> (r: Option<&'a FieldDecl>)
    ensures
        match r {
            Some(a) => field_named(field_views(all@), name@) == Some(a@),
            None => field_named(field_views(all@), name@) is None,
        },
{
    let ghost list = field_views(all@);
    let mut i: usize = 0;
    while i < all.len()
        invariant
            i <= all@.len(),
            list == field_views(all@),
            field_named(list.take(i as int), name@) is None,
        decreases all.len() - i,
    {
        assert(list[i as int] == all@[i as int]@);
        assert(list.take(i + 1).drop_last() =~= list.take(i as int));
        if same(all[i].field_name.as_str(), name) {
            proof {
                lemma_find_field_prefix(list, name@, i + 1);
            }
            return Some(&all[i]);
        }
        i = i + 1;
    }
    assert(list.take(i as int) =~= list);
    None
}

fn same_name(a: &str, b: &str) -> (r: bool)
    ensures
        r == (uppercase(a@) == uppercase(b@)),
{
    same(a.to_uppercase().as_str(), b.to_uppercase().as_str())
}

fn find_comment_in(columns: &Vec<SqlColumnDef>, column: &str) -> (r: Option<String>)
    ensures
        opt_text(r) == comment_in(columns@.map_values(|c: SqlColumnDef| c@), column@),
{
    let ghost all = columns@.map_values(|c: SqlColumnDef| c@);
    let mut found: Option<String> = None;
    let mut i: usize = 0;
    while i < columns.len()
        invariant
            all == columns@.map_values(|c: SqlColumnDef| c@),
            i <= columns@.len(),
            opt_text(found) == comment_in(all.take(i as int), column@),
        decreases columns.len() - i,
    {
        assert(all[i as int] == columns@[i as int]@);
        assert(all.take(i + 1).drop_last() =~= all.take(i as int));
        if found.is_none() && same_name(columns[i].column_name.as_str(), column) {
            found = copy_opt(&columns[i].comment);
        }
        i = i + 1;
    }
    assert(all.take(i as int) =~= all);
    found
}

fn find_comment_in_tables(tables: &Vec<SqlTableDef>, table: &str, column: &str) -> (r: Option<String>)
    ensures
        opt_text(r) == comment_in_tables(tables@.map_values(|t: SqlTableDef| t@), table@, column@),
{
    let ghost all = tables@.map_values(|t: SqlTableDef| t@);
    let mut found: Option<String> = None;
    let mut i: usize = 0;
    while i < tables.len()
        invariant
            all == tables@.map_values(|t: SqlTableDef| t@),
            i <= tables@.len(),
            opt_text(found) == comment_in_tables(all.take(i as int), table@, column@),
        decreases tables.len() - i,
    {
        assert(all[i as int] == tables@[i as int]@);
        assert(all.take(i + 1).drop_last() =~= all.take(i as int));
        if found.is_none() && same_name(tables[i].table_name.as_str(), table) {
            found = find_comment_in(&tables[i].columns, column);
        }
        i = i + 1;
    }
    assert(all.take(i as int) =~= all);
    found
}

fn find_comment(source_files: &TextMap<String>, table: &str, column: &str) -> (r: Option<String>)
    ensures
        opt_text(r) == comment_on(index_view(*source_files), table@, column@),
{
    let ghost all = index_view(*source_files);
    let n: usize = source_files.len();
    let mut found: Option<String> = None;
    let mut i: usize = 0;
    while i < n
        invariant
            all == index_view(*source_files),
            n == source_files.entries().len(),
            i <= n,
            opt_text(found) == comment_on(all.take(i as int), table@, column@),
        decreases n - i,
    {
        let path = source_files.key_at(i);
        let content = source_files.value_at(i);
        assert(all[i as int] == (path@, content@));
        assert(all.take(i + 1).drop_last() =~= all.take(i as int));
        if found.is_none() && is_sql_file(path.as_str()) {
            let tables = parse_create_tables(content.as_str());
            found = find_comment_in_tables(&tables, table, column);
        }
        i = i + 1;
    }
    assert(all.take(i as int) =~= all);
    found
}

/// The texts by which lines are recognised.
struct Patterns {
    field: String,
    column: String,
    table: String,
    set_value: String,
    set: String,
    setter: String,
    get_value: String,
    get: String,
    to_string: String,
    getter: String,
    is_getter: String,
}

impl Patterns {
    spec fn names(self) -> ColumnNames {
        ColumnNames { field: self.field@, column: self.column@, table: self.table@ }
    }

    spec fn wf(self) -> bool {
        &&& self.set_value@ == "."@ + self.field@ + ".setValue"@
        &&& self.set@ == "."@ + self.field@ + ".set("@
        &&& self.setter@ == ".set"@ + capitalized(self.field@) + "("@
        &&& self.get_value@ == "."@ + self.field@ + ".getValue"@
        &&& self.get@ == "."@ + self.field@ + ".get("@
        &&& self.to_string@ == "."@ + self.field@ + ".toString"@
        &&& self.getter@ == ".get"@ + capitalized(self.field@) + "("@
        &&& self.is_getter@ == ".is"@ + capitalized(self.field@) + "("@
    }

    fn new(field: &str, column: &str, table: &str) -> (r: Self)
        ensures
            r.wf(),
            r.names() == (ColumnNames { field: field@, column: column@, table: table@ }),
    {
        let getters = getter_patterns(field);
        assert(texts(getters@).len() == getters@.len());
        assert(texts(getters@)[0] == getters@[0]@);
        assert(texts(getters@)[1] == getters@[1]@);
        Patterns {
            field: field.to_owned(),
            column: column.to_owned(),
            table: table.to_owned(),
            set_value: member_pattern(field, ".setValue"),
            set: member_pattern(field, ".set("),
            setter: setter_pattern(field),
            get_value: member_pattern(field, ".getValue"),
            get: member_pattern(field, ".get("),
            to_string: member_pattern(field, ".toString"),
            getter: getters[0].clone(),
            is_getter: getters[1].clone(),
        }
    }

    /// Whether a line reads and whether it writes the column.
    fn uses(&self, line: &[char]) -> (r: (bool, bool))
        requires
            self.wf(),
        ensures
            r.0 == line_reads(line@, self.names()),
            r.1 == line_writes(line@, self.names()),
    {
        let text = string_of(line);
        let sql = if table_access(text.as_str(), self.table.as_str()).is_some() {
            column_access(text.as_str(), self.column.as_str())
        } else {
            None
        };
        let java_write: bool = holds(line, self.set_value.as_str()) || holds(line, self.set.as_str()) || holds(
            line,
            self.setter.as_str(),
        ) || is_direct_field_write(text.as_str(), self.field.as_str());
        let java_read: bool = holds(line, self.get_value.as_str()) || holds(line, self.get.as_str()) || holds(
            line,
            self.to_string.as_str(),
        ) || holds(line, self.getter.as_str()) || holds(line, self.is_getter.as_str()) || (!java_write
            && has_direct_field_access(text.as_str(), self.field.as_str()));
        assert(java_write == java_writes(line@, self.field@));
        assert(java_read == java_reads(line@, self.field@));
        let (sql_read, sql_write) = match sql {
            Some(SqlAccess::Read) => (true, false),
            Some(SqlAccess::Write) => (false, true),
            None => (false, false),
        };
        (java_read || sql_read, java_write || sql_write)
    }
}

fn member_pattern(field: &str, suffix: &str) -> (r: String)
    ensures
        r@ == "."@ + field@ + suffix@,
{
    let mut r = ".".to_owned();
    r.append(field);
    r.append(suffix);
    r
}

fn infer_class_from_file(path: &str) -> (r: String)
    ensures
        r@ == class_of_file(path@),
{
    let chars = chars_of(path);
    let head = drop_suffix(chars.as_slice(), ".java");
    let mut r = String::new();
    let mut i: usize = 0;
    assert(head@.take(0) =~= Seq::empty());
    assert(r@ =~= Seq::empty());
    while i < head.len()
        invariant
            i <= head@.len(),
            r@ == dotted_path(head@.take(i as int)),
        decreases head.len() - i,
    {
        assert(head@.take(i + 1).drop_last() =~= head@.take(i as int));
        if head[i] == '/' || head[i] == '\\' {
            r.push('.');
        } else {
            r.push(head[i]);
        }
        i = i + 1;
    }
    assert(head@.take(i as int) =~= head@);
    r
}

spec fn site_views(v: Seq<UsageSite>) -> Seq<UsageSiteView> {
    v.map_values(|s: UsageSite| s@)
}

fn add_site(sites: &mut Vec<UsageSite>, path: &str, i: usize, access_type: &str)
    ensures
        site_views(final(sites)@) == site_views(old(sites)@).push(site(path@, i as int, access_type@)),
{
    let ghost before = site_views(sites@);
    let line: u32 = if i < u32::MAX as usize {
        i as u32 + 1
    } else {
        u32::MAX
    };
    let item = UsageSite {
        fqn: infer_class_from_file(path),
        file: path.to_owned(),
        line,
        access_type: access_type.to_owned(),
    };
    let ghost iv = item@;
    assert(iv == site(path@, i as int, access_type@));
    sites.push(item);
    assert(site_views(sites@) =~= before.push(iv));
}

fn read_file(readers: &mut Vec<UsageSite>, writers: &mut Vec<UsageSite>, path: &str, content: &str, patterns: &Patterns)
    requires
        patterns.wf(),
    ensures
        site_views(final(readers)@) == site_views(old(readers)@) + sites_in(
            path@,
            lines(content@),
            patterns.names(),
            false,
        ),
        site_views(final(writers)@) == site_views(old(writers)@) + sites_in(
            path@,
            lines(content@),
            patterns.names(),
            true,
        ),
{
    let list = lines_of(chars_of(content).as_slice());
    let ghost all = lines(content@);
    let ghost names = patterns.names();
    assert(char_lists(list@) == all);
    let ghost r0 = site_views(readers@);
    let ghost w0 = site_views(writers@);
    let mut i: usize = 0;
    assert(r0 + sites_in(path@, all.take(0), names, false) =~= r0);
    assert(w0 + sites_in(path@, all.take(0), names, true) =~= w0);
    while i < list.len()
        invariant
            patterns.wf(),
            names == patterns.names(),
            all == char_lists(list@),
            i <= list@.len(),
            site_views(readers@) == r0 + sites_in(path@, all.take(i as int), names, false),
            site_views(writers@) == w0 + sites_in(path@, all.take(i as int), names, true),
        decreases list.len() - i,
    {
        assert(all[i as int] == list@[i as int]@);
        assert(all.take(i + 1).drop_last() =~= all.take(i as int));
        let (reads, writes) = patterns.uses(list[i].as_slice());
        if writes {
            if reads {
                add_site(writers, path, i, "read_write");
            } else {
                add_site(writers, path, i, "write");
            }
        } else if reads {
            add_site(readers, path, i, "read");
        }
        i = i + 1;
        assert(site_views(readers@) =~= r0 + sites_in(path@, all.take(i as int), names, false));
        assert(site_views(writers@) =~= w0 + sites_in(path@, all.take(i as int), names, true));
    }
    assert(all.take(i as int) =~= all);
}

fn sort_sites(v: Vec<UsageSite>) -> (r: Vec<UsageSite>)
    ensures
        site_views(r@) == stable_sorted(site_views(v@), by_place()),
{
    let ghost le = |a: UsageSite, b: UsageSite| by_place()(a@, b@);
    let compare = |a: &UsageSite, b: &UsageSite| -> (t: bool)
        ensures
            t == by_place()(a@, b@),
        {
            if same(a.file.as_str(), b.file.as_str()) {
                a.line <= b.line
            } else {
                at_most(a.file.as_str(), b.file.as_str())
            }
        };
    proof {
        assert forall|a: UsageSite, b: UsageSite| #[trigger] le(a, b) || le(b, a) by {
            lemma_lex_total(a@.file, b@.file);
        }
        assert forall|a: UsageSite, b: UsageSite, c: UsageSite| #[trigger] le(a, b) && #[trigger] le(b, c) implies le(
            a,
            c,
        ) by {
            lemma_lex_total(a@.file, c@.file);
            lemma_lex_total(a@.file, b@.file);
            lemma_lex_total(b@.file, c@.file);
            if lex_le(a@.file, b@.file) && lex_le(b@.file, c@.file) {
                lemma_lex_transitive(a@.file, b@.file, c@.file);
            }
        }
        assert(total_preorder(le));
        lemma_sorted_map(v@, |x: UsageSite| x@, le, by_place());
    }
    sort_stable(v, &compare, Ghost(le))
}

/// Where a column is read and where it is written.
fn find_field_usages(source_files: &TextMap<String>, own_file: &str, patterns: &Patterns) -> (r: (
    Vec<UsageSite>,
    Vec<UsageSite>,
))
    requires
        patterns.wf(),
    ensures
        site_views(r.0@) == stable_sorted(
            all_sites(index_view(*source_files), own_file@, patterns.names(), false),
            by_place(),
        ),
        site_views(r.1@) == stable_sorted(
            all_sites(index_view(*source_files), own_file@, patterns.names(), true),
            by_place(),
        ),
{
    let ghost all = index_view(*source_files);
    let ghost names = patterns.names();
    let n: usize = source_files.len();
    let mut readers: Vec<UsageSite> = Vec::new();
    let mut writers: Vec<UsageSite> = Vec::new();
    let mut i: usize = 0;
    assert(site_views(readers@) =~= all_sites(all.take(0), own_file@, names, false));
    assert(site_views(writers@) =~= all_sites(all.take(0), own_file@, names, true));
    while i < n
        invariant
            patterns.wf(),
            names == patterns.names(),
            all == index_view(*source_files),
            n == source_files.entries().len(),
            i <= n,
            site_views(readers@) == all_sites(all.take(i as int), own_file@, names, false),
            site_views(writers@) == all_sites(all.take(i as int), own_file@, names, true),
        decreases n - i,
    {
        let path = source_files.key_at(i);
        let content = source_files.value_at(i);
        assert(all[i as int] == (path@, content@));
        assert(all.take(i + 1).drop_last() =~= all.take(i as int));
        if !ends_with(chars_of(path.as_str()).as_slice(), own_file) {
            read_file(&mut readers, &mut writers, path.as_str(), content.as_str(), patterns);
        }
        i = i + 1;
    }
    assert(all.take(i as int) =~= all);
    (sort_sites(readers), sort_sites(writers))
}

/// What is known of the table class beforehand.
struct TableSource {
    own_file: String,
    table: String,
    attributes: Vec<Attribute>,
    fields: Vec<FieldDecl>,
}

impl View for TableSource {
    type V = TableFacts;

    closed spec fn view(&self) -> TableFacts {
        TableFacts {
            own_file: self.own_file@,
            table: self.table@,
            attributes: attribute_views(self.attributes@),
            fields: field_views(self.fields@),
        }
    }
}

fn source_of(class: &EntityRecord, source_files: &TextMap<String>) -> (r: String)
    ensures
        r@ == class_source(class@, index_view(*source_files)),
{
    match entry_of(source_files, class.witness.file.as_str()) {
        Some(s) => s.clone(),
        None => {
            let r = String::new();
            assert(r@ =~= Seq::empty());
            r
        },
    }
}

fn read_table(class: &EntityRecord, source_files: &TextMap<String>) -> (r: TableSource)
    ensures
        r@ == table_facts(class@, index_view(*source_files)),
{
    let source = source_of(class, source_files);
    let mut own_file = segment_after_dots(chars_of(class.fqn.as_str()).as_slice());
    own_file.append(".java");
    TableSource {
        own_file,
        table: table_name_of(class, source_files),
        attributes: parse_make_attribute_calls(source.as_str()),
        fields: parse_field_declarations(source.as_str()),
    }
}

fn describe_column(facts: &TableSource, field: &str, source_files: &TextMap<String>) -> (r: Option<ColumnInfo>)
    ensures
        match r {
            Some(info) => info@ == column_info(facts@, field@, index_view(*source_files)) && is_shown(
                facts@,
                info@,
            ),
            None => !is_shown(facts@, column_info(facts@, field@, index_view(*source_files))),
        },
{
    let attribute = find_attribute(&facts.attributes, field);
    let declared = find_field(&facts.fields, field);
    let known: bool = attribute.is_some() || declared.is_some();
    let column = match attribute {
        Some(a) => a.column_name.clone(),
        None => match declared {
            Some(f) => match &f.column_name {
                Some(c) => c.clone(),
                None => field.to_owned(),
            },
            None => field.to_owned(),
        },
    };
    assert(column@ == column_name_of(facts@, field@));
    let data_type = match attribute {
        Some(a) => a.data_type.clone(),
        None => match declared {
            Some(f) => f.declared_type.clone(),
            None => "unknown".to_owned(),
        },
    };
    let comment = match find_comment(source_files, facts.table.as_str(), column.as_str()) {
        Some(c) => c,
        None => String::new(),
    };
    assert(comment@ =~= match comment_on(index_view(*source_files), facts@.table, column@) {
        Some(c) => c,
        None => Seq::empty(),
    });
    let logical_name = match attribute {
        Some(a) => a.logical_name.clone(),
        None => match declared {
            Some(f) => match &f.doc {
                Some(d) => d.clone(),
                None => comment,
            },
            None => comment,
        },
    };
    let patterns = Patterns::new(field, column.as_str(), facts.table.as_str());
    let (readers, writers) = find_field_usages(source_files, facts.own_file.as_str(), &patterns);
    let shown: bool = readers.len() > 0 || writers.len() > 0 || known;
    let info = ColumnInfo {
        field_name: field.to_owned(),
        logical_name,
        column_name: column,
        data_type,
        readers,
        writers,
    };
    assert(info@ =~= column_info(facts@, field@, index_view(*source_files)));
    assert(info@.readers.len() == info.readers@.len());
    assert(info@.writers.len() == info.writers@.len());
    if shown {
        Some(info)
    } else {
        None
    }
}

spec fn column_views(v: Seq<ColumnInfo>) -> Seq<ColumnInfoView> {
    v.map_values(|c: ColumnInfo| c@)
}

fn sort_columns(v: Vec<ColumnInfo>) -> (r: Vec<ColumnInfo>)
    ensures
        column_views(r@) == stable_sorted(column_views(v@), by_usage()),
{
    let ghost le = |a: ColumnInfo, b: ColumnInfo| by_usage()(a@, b@);
    let compare = |a: &ColumnInfo, b: &ColumnInfo| -> (t: bool)
        ensures
            t == by_usage()(a@, b@),
        {
            a.readers.len() as u128 + a.writers.len() as u128 >= b.readers.len() as u128 + b.writers.len() as u128
        };
    proof {
        lemma_sorted_map(v@, |x: ColumnInfo| x@, le, by_usage());
    }
    sort_stable(v, &compare, Ghost(le))
}

fn extract_javadoc(source: &str) -> (r: Option<String>)
    ensures
        opt_text(r) == description_of(lines(source@)),
{
    let list = lines_of(chars_of(source).as_slice());
    let ghost all = lines(source@);
    assert(char_lists(list@) == all);
    let mut found: Option<String> = None;
    let mut i: usize = 0;
    while i < list.len()
        invariant
            all == char_lists(list@),
            i <= list@.len(),
            opt_text(found) == description_of(all.take(i as int)),
        decreases list.len() - i,
    {
        assert(all[i as int] == list@[i as int]@);
        assert(all.take(i + 1).drop_last() =~= all.take(i as int));
        if found.is_none() {
            let t = trim(list[i].as_slice());
            let text = trim(drop_prefix(t, "* "));
            assert(t@.take(t@.len() as int) =~= t@);
            if starts_with(t, "* ") && !starts_with(t, "* @") && byte_offset(t, t.len()) > 2 && text.len() > 0 {
                found = Some(string_of(text));
            }
        }
        i = i + 1;
    }
    assert(all.take(i as int) =~= all);
    found
}

proof fn lemma_table_class_prefix(entities: Seq<EntityView>, table_lower: Seq<char>, i: int)
    requires
        0 <= i <= entities.len(),
        table_class_in(entities.take(i), table_lower) is Some,
    ensures
        table_class_in(entities, table_lower) == table_class_in(entities.take(i), table_lower),
    decreases entities.len() - i,
{
    if i < entities.len() {
        assert(entities.take(i + 1).drop_last() =~= entities.take(i));
        lemma_table_class_prefix(entities, table_lower, i + 1);
    } else {
        assert(entities.take(i) =~= entities);
    }
}

fn find_table_class(entities: &Vec<EntityRecord>, table_lower: &str) -> (r: Option<usize>)
    ensures
        match r {
            Some(i) => i < entities@.len() && table_class_in(entity_views(entities@), table_lower@) == Some(i as int),
            None => table_class_in(entity_views(entities@), table_lower@) is None,
        },
{
    let ghost all = entity_views(entities@);
    let mut suffix = ".".to_owned();
    suffix.append(table_lower);
    let mut i: usize = 0;
    while i < entities.len()
        invariant
            all == entity_views(entities@),
            suffix@ == "."@ + table_lower@,
            i <= entities@.len(),
            table_class_in(all.take(i as int), table_lower@) is None,
        decreases entities.len() - i,
    {
        let e = &entities[i];
        assert(all[i as int] == e@);
        assert(all.take(i + 1).drop_last() =~= all.take(i as int));
        if e.entity_type == JavaEntityType::Class {
            let fqn = e.fqn.as_str().to_lowercase();
            if ends_with(chars_of(fqn.as_str()).as_slice(), suffix.as_str()) || same(fqn.as_str(), table_lower) || same(
                e.label.as_str().to_lowercase().as_str(),
                table_lower,
            ) {
                proof {
                    lemma_table_class_prefix(all, table_lower@, i + 1);
                }
                return Some(i);
            }
        }
        i = i + 1;
    }
    assert(all.take(i as int) =~= all);
    None
}

/// The use of a table's columns, by a table name that is at hand in lower case.
pub fn column_usage_lower(
    space_data: &SpaceData,
    table_class: &str,
    table_lower: &str,
    source_files: &TextMap<String>,
) -> (r: Result<ColumnUsageResult, String>)
    ensures
        usage_result(r) == usage_of(space_data@, table_class@, table_lower@, index_view(*source_files)),
{
    let ghost space = space_data@;
    let ghost sources = index_view(*source_files);
    let ghost all = entity_views(space_data.entities@);
    assert(all == space.entities);
    let class = match find_table_class(&space_data.entities, table_lower) {
        Some(i) => {
            assert(all[i as int] == space_data.entities@[i as int]@);
            &space_data.entities[i]
        },
        None => {
            let mut reason = "Table class not found: ".to_owned();
            reason.append(table_class);
            return Err(reason);
        },
    };
    let facts = read_table(class, source_files);
    let ghost fv = facts@;
    let mut columns: Vec<ColumnInfo> = Vec::new();
    let mut i: usize = 0;
    assert(column_views(columns@) =~= columns_of(all.take(0), class@.fqn, fv, sources));
    while i < space_data.entities.len()
        invariant
            i <= space_data.entities@.len(),
            all == entity_views(space_data.entities@),
            sources == index_view(*source_files),
            fv == facts@,
            column_views(columns@) == columns_of(all.take(i as int), class@.fqn, fv, sources),
        decreases space_data.entities.len() - i,
    {
        let e = &space_data.entities[i];
        assert(all[i as int] == e@);
        assert(all.take(i + 1).drop_last() =~= all.take(i as int));
        if e.entity_type == JavaEntityType::Field && starts_with(
            chars_of(e.fqn.as_str()).as_slice(),
            class.fqn.as_str(),
        ) && !same(e.fqn.as_str(), class.fqn.as_str()) {
            let field = segment_after_dots(chars_of(e.fqn.as_str()).as_slice());
            match describe_column(&facts, field.as_str(), source_files) {
                Some(info) => {
                    let ghost before = column_views(columns@);
                    let ghost iv = info@;
                    columns.push(info);
                    assert(column_views(columns@) =~= before.push(iv));
                },
                None => {},
            }
        }
        i = i + 1;
    }
    assert(all.take(i as int) =~= all);
    let total_columns: usize = columns.len();
    Ok(
        ColumnUsageResult {
            table_class: class.fqn.clone(),
            table_description: extract_javadoc(source_of(class, source_files).as_str()),
            columns: sort_columns(columns),
            total_columns,
        },
    )
}

/// The use of a table's columns.
pub fn column_usage(space_data: &SpaceData, table_class: &str, source_files: &TextMap<String>) -> (r: Result<
    ColumnUsageResult,
    String,
>)
    ensures
        usage_result(r) == usage_of(
            space_data@,
            table_class@,
            lowercase(table_class@),
            index_view(*source_files),
        ),
{
    let lower = table_class.to_lowercase();
    column_usage_lower(space_data, table_class, lower.as_str(), source_files)
}

} // verus!
