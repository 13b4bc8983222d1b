//! What is read off Java fields and mapper files.

use vstd::prelude::*;

use crate::lines::{begins, ends, ident_char, set_end, trimmed, trimmed_start};
use crate::query::java::{
    comma_from, comment_from, declaration_head, declared, entity_of_repository, field_step, first_declared,
    is_field_name, is_modifier, opens_statement, plain_words, FieldState, FieldView,
};
use crate::query::mybatis::{
    attr_value, close_tag, mapper_step, opened, tag_end, tag_step, tag_text, MapperState, OpenView, StatementKind,
    StatementView,
};
use crate::text::{find, find_char, is_space, joined, lemma_find, occurs_at, words};
use crate::text_laws::law_trimmed;

verus! {

/// A text without white space at either end is its own trimmed form.
proof fn lemma_trimmed_same(s: Seq<char>)
    requires
        s.len() > 0,
        !is_space(s[0]),
        !is_space(s.last()),
    ensures
        trimmed(s) == s,
{
    let (a, b) = law_trimmed(s);
    if a > 0 {
        assert(is_space(s[0]));
    }
    if b < s.len() {
        assert(is_space(s[s.len() - 1]));
    }
    assert(s.subrange(0, s.len() as int) =~= s);
}

proof fn lemma_no_char(s: Seq<char>, c: char, i: int)
    requires
        0 <= i,
        !s.contains(c),
    ensures
        find_char(s, c, i) is None,
    decreases s.len() - i,
{
    if i < s.len() {
        assert(s[i] != c);
        lemma_no_char(s, c, i + 1);
    }
}

proof fn lemma_no_comma(s: Seq<char>, i: int, depth: nat)
    requires
        0 <= i,
        !s.contains(','),
        !s.contains('"'),
        !s.contains('\''),
    ensures
        comma_from(s, i, depth, None) is None,
    decreases s.len() - i,
{
    if i < s.len() {
        assert(s[i] != ',' && s[i] != '"' && s[i] != '\'');
        lemma_no_comma(s, i + 1, depth);
        lemma_no_comma(s, i + 1, depth + 1);
        if depth > 0 {
            lemma_no_comma(s, i + 1, (depth - 1) as nat);
        }
    }
}

proof fn lemma_no_comment(s: Seq<char>, i: int)
    requires
        0 <= i,
        forall|k: int| !#[trigger] occurs_at(s, "//"@, k),
        !s.contains('"'),
        !s.contains('\''),
    ensures
        comment_from(s, i, None) is None,
    decreases s.len() - i,
{
    if i < s.len() {
        assert(s[i] != '"' && s[i] != '\'');
        assert(!occurs_at(s, "//"@, i));
        lemma_no_comment(s, i + 1);
    }
}

/// A word that may stand before the type of a field.
pub open spec fn is_mark(word: Seq<char>) -> bool {
    word == "public"@ || word == "private"@ || word == "protected"@ || word == "static"@ || word == "final"@ || word
        == "transient"@ || word == "volatile"@
}

/// A word that no declaration starts with.
pub open spec fn starts_other(word: Seq<char>) -> bool {
    word == "return"@ || word == "throw"@ || word == "if"@ || word == "for"@ || word == "while"@ || word == "switch"@
        || word == "case"@ || word == "break"@ || word == "continue"@ || word == "package"@ || word == "import"@ || word
        == "new"@ || word == "else"@ || word == "do"@ || word == "try"@ || word == "catch"@ || word == "assert"@ || word
        == "yield"@
}

/// The line declares one field: marks, a type, a name and a semicolon.
pub open spec fn declares_field(
    line: Seq<char>,
    head: Seq<char>,
    marks: Seq<Seq<char>>,
    ty: Seq<Seq<char>>,
    name: Seq<char>,
) -> bool {
    &&& trimmed(line) == head + ";"@
    &&& words(head) == marks + ty.push(name)
    &&& head.len() > 0 && !is_space(head[0]) && !is_space(head.last()) && head.last() != ';'
    &&& head[0] != '@' && head[0] != '/'
    &&& !head.contains('=') && !head.contains(',') && !head.contains('(') && !head.contains(')') && !head.contains('{')
    &&& !head.contains('"') && !head.contains('\'')
    &&& forall|k: int| !#[trigger] occurs_at(head + ";"@, "//"@, k)
    &&& forall|k: int| 0 <= k < marks.len() ==> is_mark(#[trigger] marks[k])
    &&& ty.len() > 0
    &&& forall|k: int| 0 <= k < ty.len() ==> !is_mark(#[trigger] ty[k])
    &&& !is_mark(name) && name.len() > 0
    &&& forall|k: int| 0 <= k < name.len() ==> ident_char(#[trigger] name[k]) || name[k] == '$'
    &&& !starts_other((marks + ty)[0])
}

proof fn lemma_all_pass<A>(s: Seq<A>, p: spec_fn(A) -> bool)
    requires
        forall|i: int| 0 <= i < s.len() ==> p(#[trigger] s[i]),
    ensures
        s.filter(p) == s,
    decreases s.len(),
{
    reveal(Seq::filter);
    if s.len() > 0 {
        lemma_all_pass(s.drop_last(), p);
        assert(p(s[s.len() - 1]));
        assert(s.drop_last().push(s.last()) =~= s);
    }
}

proof fn lemma_none_pass<A>(s: Seq<A>, p: spec_fn(A) -> bool)
    requires
        forall|i: int| 0 <= i < s.len() ==> !p(#[trigger] s[i]),
    ensures
        s.filter(p).len() == 0,
    decreases s.len(),
{
    reveal(Seq::filter);
    if s.len() > 0 {
        lemma_none_pass(s.drop_last(), p);
        assert(!p(s[s.len() - 1]));
    }
}

/// A line that declares a field adds it, with the column and the documentation
/// that stood before it.
pub proof fn law_field_declared(
    state: FieldState,
    line: Seq<char>,
    head: Seq<char>,
    marks: Seq<Seq<char>>,
    ty: Seq<Seq<char>>,
    name: Seq<char>,
)
    requires
        !state.in_javadoc,
        declares_field(line, head, marks, ty, name),
    ensures
        field_step(state, line).decls == state.decls.push(
            FieldView {
                field_name: name,
                declared_type: joined(ty, " "@),
                column_name: state.column,
                doc: state.doc,
            },
        ),
        field_step(state, line).doc is None,
        field_step(state, line).column is None,
        !field_step(state, line).in_javadoc,
{
    reveal_strlit(";");
    reveal_strlit("/**");
    let t = head + ";"@;
    assert(t[0] == head[0]);
    assert(!begins(t, "/**"@)) by {
        if begins(t, "/**"@) {
            assert(t.subrange(0, 3)[0] == t[0]);
        }
    }
    lemma_kept_out(head, '"');
    lemma_kept_out(head, '\'');
    lemma_kept_out(head, ',');
    lemma_no_comment(t, 0);
    lemma_no_comma(t, 0, 0);
    lemma_first_declared(line, head, marks, ty, name);
    assert(t.subrange(t.len() - 1, t.len() as int) =~= ";"@);
    assert(ends(t, ";"@));
    assert(declared(t) == seq![(name, joined(ty, " "@))]);
    let one = declared(t).map_values(
        |d: (Seq<char>, Seq<char>)|
            FieldView { field_name: d.0, declared_type: d.1, column_name: state.column, doc: state.doc },
    );
    assert(one =~= seq![
        FieldView { field_name: name, declared_type: joined(ty, " "@), column_name: state.column, doc: state.doc },
    ]);
    assert(field_step(state, line).decls =~= state.decls.push(one[0]));
}

proof fn lemma_kept_out(head: Seq<char>, c: char)
    requires
        c != ';',
        !head.contains(c),
    ensures
        !(head + ";"@).contains(c),
{
    reveal_strlit(";");
    let t = head + ";"@;
    if t.contains(c) {
        let i = choose|i: int| 0 <= i < t.len() && t[i] == c;
        if i < head.len() {
            assert(head[i] == c);
        }
    }
}

proof fn lemma_head(head: Seq<char>)
    requires
        head.len() > 0,
        !is_space(head[0]),
        !is_space(head.last()),
        head.last() != ';',
        !head.contains('='),
    ensures
        declaration_head(head + ";"@) == head,
{
    reveal_strlit(";");
    let t = head + ";"@;
    assert(t[0] == head[0]);
    assert(t.last() == ';');
    lemma_kept_out(head, '=');
    lemma_no_char(t, '=', 0);
    lemma_trimmed_same(t);
    lemma_trimmed_same(head);
    assert(";"@[0] == ';');
    assert(";"@.contains(t.last()));
    assert(t.drop_last() =~= head);
    assert(!";"@.contains(head.last()));
    assert(set_end(head, ";"@) == head.len());
    assert(set_end(t, ";"@) == head.len());
    assert(t.take(head.len() as int) =~= head);
}

proof fn lemma_first_declared(
    line: Seq<char>,
    head: Seq<char>,
    marks: Seq<Seq<char>>,
    ty: Seq<Seq<char>>,
    name: Seq<char>,
)
    requires
        declares_field(line, head, marks, ty, name),
    ensures
        first_declared(head + ";"@) == Some((name, joined(ty, " "@))),
{
    lemma_head(head);
    let p = |w: Seq<char>| !is_modifier(w);
    let rest = ty.push(name);
    lemma_filter_plus(marks, rest, p);
    assert forall|i: int| 0 <= i < marks.len() implies !p(#[trigger] marks[i]) by {
        assert(is_mark(marks[i]));
    }
    lemma_none_pass(marks, p);
    assert forall|i: int| 0 <= i < rest.len() implies p(#[trigger] rest[i]) by {
        if i < ty.len() {
            assert(!is_mark(ty[i]));
        }
    }
    lemma_all_pass(rest, p);
    assert(marks.filter(p) + rest =~= rest);
    assert(plain_words(head) == rest);
    assert(words(head)[0] == (marks + ty)[0]);
    assert(!opens_statement(words(head)[0]));
    assert(rest.last() == name);
    assert(rest.drop_last() =~= ty);
    assert(is_field_name(name));
}

proof fn lemma_filter_plus<A>(a: Seq<A>, b: Seq<A>, p: spec_fn(A) -> bool)
    ensures
        (a + b).filter(p) == a.filter(p) + b.filter(p),
    decreases b.len(),
{
    reveal(Seq::filter);
    if b.len() == 0 {
        assert(a + b =~= a);
        assert(a.filter(p) + b.filter(p) =~= a.filter(p));
    } else {
        lemma_filter_plus(a, b.drop_last(), p);
        assert((a + b).drop_last() =~= a + b.drop_last());
        assert((a + b).last() == b.last());
        assert((a + b).filter(p) =~= a.filter(p) + b.filter(p));
    }
}

/// A repository is named after the entity that it keeps.
pub proof fn law_repository_entity(entity: Seq<char>)
    requires
        entity.len() > 0,
    ensures
        entity_of_repository(entity + "Repository"@) == Some(entity),
        entity_of_repository(entity + "Dao"@) == Some(entity),
{
    reveal_strlit("Repository");
    reveal_strlit("Dao");
    let a = entity + "Repository"@;
    let n = entity.len() as int;
    assert(a.subrange(n, n + 10) =~= "Repository"@);
    assert(a.take(n) =~= entity);
    let b = entity + "Dao"@;
    assert(b.subrange(n, n + 3) =~= "Dao"@);
    assert(b.take(n) =~= entity);
    if ends(b, "Repository"@) {
        assert(b.subrange(b.len() - 10, b.len() as int)[9] == b[b.len() - 1]);
        assert("Repository"@[9] == 'y');
    }
}

/// The words of a mapper tag.
pub open spec fn is_statement_word(word: Seq<char>, kind: StatementKind) -> bool {
    ||| word == "select"@ && kind == StatementKind::Select
    ||| word == "insert"@ && kind == StatementKind::Insert
    ||| word == "update"@ && kind == StatementKind::Update
    ||| word == "delete"@ && kind == StatementKind::Delete
}

proof fn lemma_tags(word: Seq<char>, kind: StatementKind)
    requires
        is_statement_word(word, kind),
    ensures
        crate::query::mybatis::open_tag(kind) == "<"@ + word,
        close_tag(kind) == "</"@ + word + ">"@,
        word.len() == 6,
        word[0] == (match kind {
            StatementKind::Select => 's',
            StatementKind::Insert => 'i',
            StatementKind::Update => 'u',
            StatementKind::Delete => 'd',
        }),
{
    reveal_strlit("<");
    reveal_strlit("</");
    reveal_strlit(">");
    reveal_strlit("select");
    reveal_strlit("insert");
    reveal_strlit("update");
    reveal_strlit("delete");
    reveal_strlit("<select");
    reveal_strlit("<insert");
    reveal_strlit("<update");
    reveal_strlit("<delete");
    reveal_strlit("</select>");
    reveal_strlit("</insert>");
    reveal_strlit("</update>");
    reveal_strlit("</delete>");
    assert(crate::query::mybatis::open_tag(kind) =~= "<"@ + word);
    assert(close_tag(kind) =~= "</"@ + word + ">"@);
}

/// Where a statement of the mapper is open, its closing tag ends it: what stood
/// before the tag belongs to it, and it is kept under the namespace.
pub proof fn law_statement_closed(
    state: MapperState,
    open: OpenView,
    namespace: Seq<char>,
    word: Seq<char>,
    before: Seq<char>,
    after: Seq<char>,
)
    requires
        state.open == Some(open),
        state.namespace == Some(namespace),
        is_statement_word(word, open.kind),
        forall|k: int|
            0 <= k < before.len() ==> !#[trigger] occurs_at(
                before + ("</"@ + word + ">"@) + after,
                "</"@ + word + ">"@,
                k,
            ),
    ensures
        ({
            let next = tag_step(state, before + ("</"@ + word + ">"@) + after);
            let last = trimmed(before);
            let sql = if last.len() == 0 {
                open.sql
            } else {
                open.sql.push(last)
            };
            &&& next.0.open is None
            &&& next.0.namespace == Some(namespace)
            &&& next.0.statements == state.statements.push(
                StatementView { fqn: namespace + "."@ + open.id, sql: joined(sql, "\n"@) },
            )
            &&& next.1 == Some(trimmed_start(after))
        }),
{
    lemma_tags(word, open.kind);
    let tag = "</"@ + word + ">"@;
    let text = before + tag + after;
    let n = before.len() as int;
    assert(text.subrange(n, n + tag.len()) =~= tag);
    assert(occurs_at(text, tag, n));
    lemma_find(text, tag, 0);
    let i = find(text, tag, 0)->Some_0;
    assert(i == n);
    assert(text.take(n) =~= before);
    assert(text.skip(n + tag.len()) =~= after);
}

/// A line inside an open statement belongs to it, unless it is a comment.
pub proof fn law_statement_line(state: MapperState, open: OpenView, word: Seq<char>, text: Seq<char>)
    requires
        state.open == Some(open),
        state.namespace is Some,
        is_statement_word(word, open.kind),
        forall|k: int| !#[trigger] occurs_at(text, "</"@ + word + ">"@, k),
        text.len() > 0,
    ensures
        ({
            let next = mapper_step(state, text);
            &&& next.namespace == state.namespace
            &&& next.statements == state.statements
            &&& !occurs_at(text, "<!--"@, 0) ==> next.open == Some(OpenView { sql: open.sql.push(text), ..open })
            &&& occurs_at(text, "<!--"@, 0) ==> next.open == Some(open)
        }),
{
    lemma_tags(word, open.kind);
    lemma_find(text, "</"@ + word + ">"@, 0);
}

proof fn lemma_tag_end(text: Seq<char>, i: int, e: int)
    requires
        0 <= i <= e < text.len(),
        text[e] == '>',
        forall|k: int| i <= k < e ==> #[trigger] text[k] != '>' && text[k] != '"' && text[k] != '\'',
    ensures
        tag_end(text, i, None) == Some(e),
    decreases e - i,
{
    if i < e {
        assert(text[i] != '>' && text[i] != '"' && text[i] != '\'');
        lemma_tag_end(text, i + 1, e);
    }
}

proof fn lemma_quoted_end(text: Seq<char>, i: int, q: int)
    requires
        0 <= i <= q < text.len(),
        text[q] == '"',
        forall|k: int| i <= k < q ==> #[trigger] text[k] != '"',
    ensures
        tag_end(text, i, Some('"')) == tag_end(text, q + 1, None),
    decreases q - i,
{
    if i < q {
        assert(text[i] != '"');
        lemma_quoted_end(text, i + 1, q);
    }
}

proof fn lemma_char_at(s: Seq<char>, c: char, from: int, e: int)
    requires
        0 <= from <= e < s.len(),
        s[e] == c,
        forall|j: int| from <= j < e ==> #[trigger] s[j] != c,
    ensures
        find_char(s, c, from) == Some(e),
    decreases e - from,
{
    if from < e {
        assert(s[from] != c);
        lemma_char_at(s, c, from + 1, e);
    }
}

/// A tag with an identifier opens a statement of its kind, and what stands
/// behind the tag is looked at next.
pub proof fn law_statement_opened(
    state: MapperState,
    namespace: Seq<char>,
    word: Seq<char>,
    kind: StatementKind,
    id: Seq<char>,
    after: Seq<char>,
)
    requires
        state.open is None,
        state.namespace == Some(namespace),
        is_statement_word(word, kind),
        !id.contains('"'),
    ensures
        ({
            let next = tag_step(state, "<"@ + word + " id=\""@ + id + "\">"@ + after);
            &&& next.0.open == Some(OpenView { kind, id, sql: Seq::empty() })
            &&& next.0.namespace == Some(namespace)
            &&& next.0.statements == state.statements
            &&& next.1 == Some(trimmed_start(after))
        }),
{
    lemma_tags(word, kind);
    lemma_tags("select"@, StatementKind::Select);
    lemma_tags("insert"@, StatementKind::Insert);
    lemma_tags("update"@, StatementKind::Update);
    lemma_tags("delete"@, StatementKind::Delete);
    reveal_strlit("<");
    reveal_strlit(" id=\"");
    reveal_strlit("\">");
    reveal_strlit("id=");
    let text = "<"@ + word + " id=\""@ + id + "\">"@ + after;
    let n = id.len() as int;
    assert(text[7] == ' ' && text[8] == 'i' && text[9] == 'd' && text[10] == '=' && text[11] == '"');
    assert(text[12 + n] == '"' && text[13 + n] == '>');
    assert forall|k: int| 0 <= k < n implies #[trigger] text[12 + k] == id[k] by {}
    assert forall|k: int| 12 <= k < 12 + n implies #[trigger] text[k] != '"' by {
        assert(text[12 + (k - 12)] == id[k - 12]);
        assert(id.contains(id[k - 12]));
    }
    assert forall|k: int| 1 <= k < 7 implies #[trigger] text[k] == word[k - 1] by {}
    assert forall|k: int| 0 <= k < 11 implies #[trigger] text[k] != '>' && text[k] != '"' && text[k] != '\'' by {
        if 1 <= k < 7 {
            assert(text[k] == word[k - 1]);
            reveal_strlit("select");
            reveal_strlit("insert");
            reveal_strlit("update");
            reveal_strlit("delete");
        }
    }
    lemma_until_quote(text, 0, 11);
    lemma_quoted_end(text, 12, 12 + n);
    lemma_tag_end(text, 13 + n, 13 + n);
    assert(tag_end(text, 0, None) == Some(13 + n));
    let tag = tag_text(text);
    assert(tag =~= text.take(13 + n));
    assert(text.subrange(0, 7) =~= "<"@ + word);
    lemma_find(tag, "id="@, 0);
    assert(tag.subrange(8, 11) =~= "id="@);
    assert(occurs_at(tag, "id="@, 8));
    assert forall|j: int| 0 <= j < 8 implies !#[trigger] occurs_at(tag, "id="@, j) by {
        if occurs_at(tag, "id="@, j) {
            assert(tag.subrange(j, j + 3)[2] == tag[j + 2]);
            assert(tag.subrange(j, j + 3)[0] == tag[j]);
            assert("id="@[2] == '=' && "id="@[0] == 'i');
            assert(tag[j + 2] == text[j + 2]);
            reveal_strlit("select");
            reveal_strlit("insert");
            reveal_strlit("update");
            reveal_strlit("delete");
            if 1 <= j + 2 < 7 {
                assert(text[j + 2] == word[j + 1]);
            }
        }
    }
    let i = find(tag, "id="@, 0)->Some_0;
    assert(i == 8);
    let rest = tag.skip(8);
    assert(rest[3] == '"');
    assert forall|j: int| 0 <= j < 3 implies #[trigger] rest[j] != '"' by {
        assert(rest[j] == text[8 + j]);
    }
    lemma_char_at(rest, '"', 0, 3);
    assert(rest[4 + n] == '"');
    assert forall|j: int| 4 <= j < 4 + n implies #[trigger] rest[j] != '"' by {
        assert(rest[j] == text[8 + j]);
    }
    lemma_char_at(rest, '"', 4, 4 + n);
    assert(rest.subrange(4, 4 + n) =~= id);
    assert(attr_value(text, "<"@ + word, "id="@) == Some(id));
    assert forall|other: Seq<char>, k: StatementKind| #[trigger] is_statement_word(other, k) && k != kind implies !begins(
        text,
        "<"@ + other,
    ) by {
        lemma_tags(other, k);
        if begins(text, "<"@ + other) {
            assert(text.subrange(0, 7)[1] == text[1]);
            assert(("<"@ + other)[1] == other[0]);
            assert(text[1] == word[0]);
        }
    }
    assert(is_statement_word("select"@, StatementKind::Select));
    assert(is_statement_word("insert"@, StatementKind::Insert));
    assert(is_statement_word("update"@, StatementKind::Update));
    assert(is_statement_word("delete"@, StatementKind::Delete));
    assert(opened(text) == Some((kind, id)));
    assert(text.skip(14 + n) =~= after);
}

proof fn lemma_until_quote(text: Seq<char>, i: int, q: int)
    requires
        0 <= i <= q < text.len(),
        text[q] == '"',
        forall|k: int| i <= k < q ==> #[trigger] text[k] != '>' && text[k] != '"' && text[k] != '\'',
    ensures
        tag_end(text, i, None) == tag_end(text, q + 1, Some('"')),
    decreases q - i,
{
    if i < q {
        assert(text[i] != '>' && text[i] != '"' && text[i] != '\'');
        lemma_until_quote(text, i + 1, q);
    }
}

} // verus!
