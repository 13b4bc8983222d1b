//! MyBatis-specific source conventions: mapper XML parsing.
//!
//! Legacy Java codebases often wire Java interfaces to SQL through MyBatis
//! mapper XML files. Lifting those statements lets the call graph and CRUD
//! analysis see through that indirection: `<mapper namespace="x.y.UserMapper">`
//! with `<select id="findById">` corresponds to the Java method
//! `x.y.UserMapper.findById`.

use vstd::prelude::*;

use crate::lines::{
    begins, char_lists, copy_chars, count_chars, ends, ends_with, lines, lines_of, opt_text, piece_between,
    second_piece, starts_with, trim, trim_start, trimmed, trimmed_start,
};
use crate::text::{
    char_from, chars_of, find, find_char, find_from, has, join, joined, lowercase, string_of, texts,
};

verus! {

/// One SQL statement in a mapper XML file.
#[derive(Debug)]
pub struct MapperStatement {
    /// Java-side FQN this statement implements: `namespace.id`.
    pub fqn: String,
    pub sql: String,
}

/// A statement as mathematics.
#[verifier::ext_equal]
pub struct StatementView {
    pub fqn: Seq<char>,
    pub sql: Seq<char>,
}

impl View for MapperStatement {
    type V = StatementView;

    open spec fn view(&self) -> StatementView {
        StatementView { fqn: self.fqn@, sql: self.sql@ }
    }
}

/// The kinds of statement tags.
#[derive(Debug, Clone, Copy, PartialEq, Eq, Structural)]
pub enum StatementKind {
    Select,
    Insert,
    Update,
    Delete,
}

pub open spec fn open_tag(kind: StatementKind) -> Seq<char> {
    match kind {
        StatementKind::Select => "<select"@,
        StatementKind::Insert => "<insert"@,
        StatementKind::Update => "<update"@,
        StatementKind::Delete => "<delete"@,
    }
}

pub open spec fn close_tag(kind: StatementKind) -> Seq<char> {
    match kind {
        StatementKind::Select => "</select>"@,
        StatementKind::Insert => "</insert>"@,
        StatementKind::Update => "</update>"@,
        StatementKind::Delete => "</delete>"@,
    }
}

fn opening(kind: StatementKind) -> (r: &'static str)
    ensures
        r@ == open_tag(kind),
{
    match kind {
        StatementKind::Select => "<select",
        StatementKind::Insert => "<insert",
        StatementKind::Update => "<update",
        StatementKind::Delete => "<delete",
    }
}

fn closing(kind: StatementKind) -> (r: &'static str)
    ensures
        r@ == close_tag(kind),
{
    match kind {
        StatementKind::Select => "</select>",
        StatementKind::Insert => "</insert>",
        StatementKind::Update => "</update>",
        StatementKind::Delete => "</delete>",
    }
}

pub fn is_mapper_xml(path: &str, content: &str) -> (r: bool)
    ensures
        r == (ends(lowercase(path@), ".xml"@) && has(content@, "<mapper"@)),
{
    ends_with(chars_of(path.to_lowercase().as_str()).as_slice(), ".xml") && find_from(
        chars_of(content).as_slice(),
        "<mapper",
        0,
    ).is_some()
}

/// The end of the tag that `i` lies in: the first `>` outside quotes. `quote`
/// is the mark of the quotes that `i` lies in.
pub open spec fn tag_end(text: Seq<char>, i: int, quote: Option<char>) -> Option<int>
    decreases text.len() - i,
{
    if i < 0 || i >= text.len() {
        None
    } else {
        match quote {
            Some(mark) => tag_end(
                text,
                i + 1,
                if text[i] == mark {
                    None
                } else {
                    quote
                },
            ),
            None => if text[i] == '>' {
                Some(i)
            } else if text[i] == '"' || text[i] == '\'' {
                tag_end(text, i + 1, Some(text[i]))
            } else {
                tag_end(text, i + 1, None)
            },
        }
    }
}

fn find_tag_end(text: &[char]) -> (r: Option<usize>)
    ensures
        match r {
            Some(i) => tag_end(text@, 0, None) == Some(i as int) && i < text@.len(),
            None => tag_end(text@, 0, None) is None,
        },
{
    let mut quote: Option<char> = None;
    let mut i: usize = 0;
    while i < text.len()
        invariant
            i <= text@.len(),
            tag_end(text@, 0, None) == tag_end(text@, i as int, quote),
        decreases text.len() - i,
    {
        let c = text[i];
        match quote {
            Some(mark) => {
                if c == mark {
                    quote = None;
                }
            },
            None => {
                if c == '>' {
                    return Some(i);
                }
                if c == '"' || c == '\'' {
                    quote = Some(c);
                }
            },
        }
        i = i + 1;
    }
    None
}

/// The text up to the end of the tag that it starts with.
pub open spec fn tag_text(text: Seq<char>) -> Seq<char> {
    match tag_end(text, 0, None) {
        Some(gt) => text.take(gt),
        None => text,
    }
}

/// The value of an attribute (given with its `=`) on the tag that a text starts with.
pub open spec fn attr_value(text: Seq<char>, tag: Seq<char>, attr: Seq<char>) -> Option<Seq<char>> {
    if !begins(text, tag) {
        None
    } else {
        match find(tag_text(text), attr, 0) {
            None => None,
            Some(i) => second_piece(tag_text(text).skip(i), '"'),
        }
    }
}

fn attr_on_tag(text: &[char], tag: &str, attr: &str) -> (r: Option<String>)
    ensures
        opt_text(r) == attr_value(text@, tag@, attr@),
{
    if !starts_with(text, tag) {
        return None;
    }
    let end: usize = match find_tag_end(text) {
        Some(gt) => gt,
        None => text.len(),
    };
    let own = vstd::slice::slice_subrange(text, 0, end);
    assert(own@ =~= tag_text(text@));
    match find_from(own, attr, 0) {
        None => None,
        Some(i) => {
            let rest = vstd::slice::slice_subrange(own, i, own.len());
            assert(rest@ =~= own@.skip(i as int));
            piece_between(rest, '"')
        },
    }
}

/// The statement that a text opens: its kind and id.
pub open spec fn opened(line: Seq<char>) -> Option<(StatementKind, Seq<char>)> {
    if let Some(id) = attr_value(line, open_tag(StatementKind::Select), "id="@) {
        Some((StatementKind::Select, id))
    } else if let Some(id) = attr_value(line, open_tag(StatementKind::Insert), "id="@) {
        Some((StatementKind::Insert, id))
    } else if let Some(id) = attr_value(line, open_tag(StatementKind::Update), "id="@) {
        Some((StatementKind::Update, id))
    } else if let Some(id) = attr_value(line, open_tag(StatementKind::Delete), "id="@) {
        Some((StatementKind::Delete, id))
    } else {
        None
    }
}

/// A statement whose closing tag has not been read.
#[verifier::ext_equal]
pub struct OpenView {
    pub kind: StatementKind,
    pub id: Seq<char>,
    pub sql: Seq<Seq<char>>,
}

/// What has been read so far.
#[verifier::ext_equal]
pub struct MapperState {
    pub namespace: Option<Seq<char>>,
    pub open: Option<OpenView>,
    pub statements: Seq<StatementView>,
}

/// One more statement, if its namespace is known.
pub open spec fn with_statement(
    statements: Seq<StatementView>,
    namespace: Option<Seq<char>>,
    id: Seq<char>,
    sql: Seq<char>,
) -> Seq<StatementView> {
    match namespace {
        Some(ns) => statements.push(StatementView { fqn: ns + "."@ + id, sql }),
        None => statements,
    }
}

/// The lines of a statement with one more, unless it is empty.
pub open spec fn with_line(sql: Seq<Seq<char>>, line: Seq<char>) -> Seq<Seq<char>> {
    if line.len() == 0 {
        sql
    } else {
        sql.push(line)
    }
}

/// The text from the next tag on; a comment is left out.
pub open spec fn next_tag(text: Seq<char>) -> Seq<char> {
    if begins(text, "<!--"@) {
        match find(text, "-->"@, 0) {
            Some(k) => trimmed_start(text.skip(k + 3)),
            None => Seq::empty(),
        }
    } else {
        match find_char(text, '<', 1) {
            Some(k) => text.skip(k),
            None => Seq::empty(),
        }
    }
}

/// What the first tag of a text does, or the text up to the closing tag of the
/// statement that is open, and what is left of the text.
pub open spec fn tag_step(state: MapperState, text: Seq<char>) -> (MapperState, Option<Seq<char>>) {
    let namespace = match state.namespace {
        Some(ns) => Some(ns),
        None => attr_value(text, "<mapper"@, "namespace="@),
    };
    match state.open {
        Some(open) => match find(text, close_tag(open.kind), 0) {
            Some(pos) => (
                MapperState {
                    namespace,
                    open: None,
                    statements: with_statement(
                        state.statements,
                        namespace,
                        open.id,
                        joined(with_line(open.sql, trimmed(text.take(pos))), "\n"@),
                    ),
                },
                Some(trimmed_start(text.skip(pos + close_tag(open.kind).len()))),
            ),
            None => (
                MapperState {
                    namespace,
                    open: Some(
                        OpenView {
                            kind: open.kind,
                            id: open.id,
                            sql: if begins(text, "<!--"@) {
                                open.sql
                            } else {
                                with_line(open.sql, text)
                            },
                        },
                    ),
                    statements: state.statements,
                },
                None,
            ),
        },
        None => match opened(text) {
            None => (MapperState { namespace, open: None, statements: state.statements }, Some(next_tag(text))),
            Some((kind, id)) => (
                MapperState {
                    namespace,
                    open: Some(OpenView { kind, id, sql: Seq::empty() }),
                    statements: state.statements,
                },
                match tag_end(text, 0, None) {
                    Some(gt) => Some(trimmed_start(text.skip(gt + 1))),
                    None => None,
                },
            ),
        },
    }
}

/// What a text does, tag by tag.
pub open spec fn mapper_step(state: MapperState, text: Seq<char>) -> MapperState
    decreases text.len(),
{
    let (next, rest) = tag_step(state, text);
    match rest {
        Some(more) => if more.len() < text.len() {
            mapper_step(next, more)
        } else {
            next
        },
        None => next,
    }
}

/// The state after a number of lines.
pub open spec fn mapper_after(lines: Seq<Seq<char>>) -> MapperState
    decreases lines.len(),
{
    if lines.len() == 0 {
        MapperState { namespace: None, open: None, statements: Seq::empty() }
    } else {
        mapper_step(mapper_after(lines.drop_last()), trimmed(lines.last()))
    }
}

struct OpenStatement {
    kind: StatementKind,
    id: String,
    sql: Vec<String>,
}

spec fn open_view(o: Option<OpenStatement>) -> Option<OpenView> {
    match o {
        Some(o) => Some(OpenView { kind: o.kind, id: o.id@, sql: texts(o.sql@) }),
        None => None,
    }
}

spec fn statement_views(v: Seq<MapperStatement>) -> Seq<StatementView> {
    v.map_values(|s: MapperStatement| s@)
}

fn find_opened(line: &[char]) -> (r: Option<(StatementKind, String)>)
    ensures
        match r {
            Some((kind, id)) => opened(line@) == Some((kind, id@)),
            None => opened(line@) is None,
        },
{
    if let Some(id) = attr_on_tag(line, opening(StatementKind::Select), "id=") {
        return Some((StatementKind::Select, id));
    }
    if let Some(id) = attr_on_tag(line, opening(StatementKind::Insert), "id=") {
        return Some((StatementKind::Insert, id));
    }
    if let Some(id) = attr_on_tag(line, opening(StatementKind::Update), "id=") {
        return Some((StatementKind::Update, id));
    }
    if let Some(id) = attr_on_tag(line, opening(StatementKind::Delete), "id=") {
        return Some((StatementKind::Delete, id));
    }
    None
}

fn add_statement(statements: &mut Vec<MapperStatement>, namespace: &Option<String>, id: &str, sql: String)
    ensures
        statement_views(final(statements)@) == with_statement(
            statement_views(old(statements)@),
            opt_text(*namespace),
            id@,
            sql@,
        ),
{
    match namespace {
        Some(ns) => {
            let mut fqn = ns.clone();
            fqn.append(".");
            fqn.append(id);
            let statement = MapperStatement { fqn, sql };
            let ghost before = statements@;
            statements.push(statement);
            assert(statement_views(statements@) =~= statement_views(before).push(statement@));
        },
        None => {},
    }
}

fn add_line(sql: &mut Vec<String>, line: &[char])
    ensures
        texts(final(sql)@) == with_line(texts(old(sql)@), line@),
{
    if line.len() > 0 {
        let ghost before = sql@;
        sql.push(string_of(line));
        assert(texts(sql@) =~= texts(before).push(line@));
    }
}

fn find_next_tag(text: &[char]) -> (r: Vec<char>)
    ensures
        r@ == next_tag(text@),
{
    let n: usize = text.len();
    if starts_with(text, "<!--") {
        proof {
            reveal_strlit("-->");
        }
        match find_from(text, "-->", 0) {
            Some(k) => {
                let rest = vstd::slice::slice_subrange(text, k + 3, n);
                assert(rest@ =~= text@.skip(k + 3));
                copy_chars(trim_start(rest))
            },
            None => Vec::new(),
        }
    } else {
        match char_from(text, '<', 1) {
            Some(k) => {
                let rest = vstd::slice::slice_subrange(text, k, n);
                assert(rest@ =~= text@.skip(k as int));
                copy_chars(rest)
            },
            None => Vec::new(),
        }
    }
}

/// What has been read so far.
struct Mapper {
    namespace: Option<String>,
    open: Option<OpenStatement>,
    statements: Vec<MapperStatement>,
}

impl View for Mapper {
    type V = MapperState;

    closed spec fn view(&self) -> MapperState {
        MapperState {
            namespace: opt_text(self.namespace),
            open: open_view(self.open),
            statements: statement_views(self.statements@),
        }
    }
}

spec fn rest_view(r: Option<Vec<char>>) -> Option<Seq<char>> {
    match r {
        Some(v) => Some(v@),
        None => None,
    }
}

impl Mapper {
    /// Reads the first tag of a text, or up to the closing tag that is due.
    fn read_tag(&mut self, text: &[char]) -> (r: Option<Vec<char>>)
        ensures
            (final(self)@, rest_view(r)) == tag_step(old(self)@, text@),
    {
        let n: usize = text.len();
        if self.namespace.is_none() {
            self.namespace = attr_on_tag(text, "<mapper", "namespace=");
        }
        match self.open.take() {
            Some(current) => {
                let mut current = current;
                let close = closing(current.kind);
                match find_from(text, close, 0) {
                    Some(pos) => {
                        let head = vstd::slice::slice_subrange(text, 0, pos);
                        assert(head@ =~= text@.take(pos as int));
                        add_line(&mut current.sql, trim(head));
                        let sql = join(current.sql.as_slice(), "\n");
                        add_statement(&mut self.statements, &self.namespace, current.id.as_str(), sql);
                        let rest = vstd::slice::slice_subrange(text, pos + count_chars(close), n);
                        assert(rest@ =~= text@.skip(pos + close@.len()));
                        Some(copy_chars(trim_start(rest)))
                    },
                    None => {
                        if !starts_with(text, "<!--") {
                            add_line(&mut current.sql, text);
                        }
                        self.open = Some(current);
                        None
                    },
                }
            },
            None => match find_opened(text) {
                None => Some(find_next_tag(text)),
                Some((kind, id)) => {
                    let sql: Vec<String> = Vec::new();
                    assert(texts(sql@) =~= Seq::empty());
                    self.open = Some(OpenStatement { kind, id, sql });
                    match find_tag_end(text) {
                        Some(gt) => {
                            let rest = vstd::slice::slice_subrange(text, gt + 1, n);
                            assert(rest@ =~= text@.skip(gt + 1));
                            Some(copy_chars(trim_start(rest)))
                        },
                        None => None,
                    }
                },
            },
        }
    }

    /// Reads a line, tag by tag.
    fn read_line(&mut self, line: &[char])
        ensures
            final(self)@ == mapper_step(old(self)@, line@),
    {
        let mut text: Vec<char> = copy_chars(line);
        loop
            invariant_except_break
                mapper_step(old(self)@, line@) == mapper_step(self@, text@),
            ensures
                self@ == mapper_step(old(self)@, line@),
            decreases text@.len(),
        {
            match self.read_tag(text.as_slice()) {
                Some(more) => {
                    if more.len() >= text.len() {
                        break;
                    }
                    text = more;
                },
                None => {
                    break;
                },
            }
        }
    }
}

/// Parse all SQL statements from a MyBatis mapper XML source.
pub fn parse_mapper_statements(content: &str) -> (r: Vec<MapperStatement>)
    ensures
        r@.map_values(|s: MapperStatement| s@) == mapper_after(lines(content@)).statements,
{
    let mut mapper = Mapper { namespace: None, open: None, statements: Vec::new() };
    let all = lines_of(chars_of(content).as_slice());
    let ghost ls = lines(content@);
    let mut i: usize = 0;
    proof {
        assert(statement_views(mapper.statements@) =~= Seq::empty());
        assert(ls.take(0) =~= Seq::empty());
    }
    while i < all.len()
        invariant
            i <= all.len(),
            ls == char_lists(all@),
            mapper_after(ls.take(i as int)) == mapper@,
        decreases all.len() - i,
    {
        proof {
            assert(ls[i as int] == all@[i as int]@);
            assert(ls.take(i + 1).drop_last() =~= ls.take(i as int));
        }
        mapper.read_line(trim(all[i].as_slice()));
        i = i + 1;
    }
    assert(ls.take(i as int) =~= ls);
    mapper.statements
}

} // verus!
