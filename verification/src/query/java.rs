//! Java-specific source conventions: field declarations, JPA annotations,
//! JavaBeans accessor naming and repository naming.
//!
//! Language-specific heuristics live here so that query logic stays
//! language-neutral. Supporting another language means adding a sibling
//! module with the same surface.

use vstd::prelude::*;

use crate::lines::{
    begins, char_lists, copy_chars, drop_prefix, drop_suffix, ends, ends_with, free_at, ident_char, is_free_at,
    is_ident_char, lines, lines_of, opt_text, piece_between, second_piece, starts_with, strip_end, stripped_end, trim,
    trim_end, trim_start, trimmed, trimmed_end, trimmed_start, without_prefix, without_suffix,
};
use crate::lift::symbolic::pairs;
use crate::model::semantic::copy_opt;
use crate::seqs::{lemma_filter_ends, lemma_filter_step};
use crate::text::{
    after_space, char_from, chars_of, find, find_char, find_from, is_upper, join, joined, lowercase, occurs_at, same, skip_space, split_words,
    stands_at, string_of, texts, uppercase, words,
};

verus! {

/// A field declaration parsed from Java source.
#[derive(Debug)]
pub struct FieldDecl {
    pub field_name: String,
    pub declared_type: String,
    /// Column name from a JPA `@Column(name = "...")` annotation, if present.
    pub column_name: Option<String>,
    /// Documentation attached to the field: javadoc block, preceding line
    /// comment, or inline comment on the declaration line.
    pub doc: Option<String>,
}

/// A field declaration as mathematics.
#[verifier::ext_equal]
pub struct FieldView {
    pub field_name: Seq<char>,
    pub declared_type: Seq<char>,
    pub column_name: Option<Seq<char>>,
    pub doc: Option<Seq<char>>,
}

impl View for FieldDecl {
    type V = FieldView;

    open spec fn view(&self) -> FieldView {
        FieldView {
            field_name: self.field_name@,
            declared_type: self.declared_type@,
            column_name: opt_text(self.column_name),
            doc: opt_text(self.doc),
        }
    }
}

pub open spec fn is_modifier(word: Seq<char>) -> bool {
    ||| word == "public"@
    ||| word == "private"@
    ||| word == "protected"@
    ||| word == "static"@
    ||| word == "final"@
    ||| word == "transient"@
    ||| word == "volatile"@
}

fn names_modifier(word: &str) -> (r: bool)
    ensures
        r == is_modifier(word@),
{
    same(word, "public") || same(word, "private") || same(word, "protected") || same(word, "static") || same(
        word,
        "final",
    ) || same(word, "transient") || same(word, "volatile")
}

/// Words that open a statement, not a declaration.
pub open spec fn opens_statement(word: Seq<char>) -> bool {
    ||| word == "return"@
    ||| word == "throw"@
    ||| word == "if"@
    ||| word == "for"@
    ||| word == "while"@
    ||| word == "switch"@
    ||| word == "case"@
    ||| word == "break"@
    ||| word == "continue"@
    ||| word == "package"@
    ||| word == "import"@
    ||| word == "new"@
    ||| word == "else"@
    ||| word == "do"@
    ||| word == "try"@
    ||| word == "catch"@
    ||| word == "assert"@
    ||| word == "yield"@
}

fn names_statement(word: &str) -> (r: bool)
    ensures
        r == opens_statement(word@),
{
    same(word, "return") || same(word, "throw") || same(word, "if") || same(word, "for") || same(word, "while") || same(
        word,
        "switch",
    ) || same(word, "case") || same(word, "break") || same(word, "continue") || same(word, "package") || same(
        word,
        "import",
    ) || same(word, "new") || same(word, "else") || same(word, "do") || same(word, "try") || same(word, "catch")
        || same(word, "assert") || same(word, "yield")
}

/// The documentation text on one line of a javadoc comment.
pub open spec fn javadoc_line(line: Seq<char>) -> Option<Seq<char>> {
    let text = trimmed(without_suffix(without_prefix(without_prefix(line, "/**"@), "*"@), "*/"@));
    if text.len() == 0 || text[0] == '@' {
        None
    } else {
        Some(text)
    }
}

fn javadoc_text(line: &[char]) -> (r: Option<String>)
    ensures
        opt_text(r) == javadoc_line(line@),
{
    let text = trim(drop_suffix(drop_prefix(drop_prefix(line, "/**"), "*"), "*/"));
    if text.len() == 0 || text[0] == '@' {
        None
    } else {
        Some(string_of(text))
    }
}

/// The next state of a scan over string and character literals: the position
/// to go on from, and the quote of the literal that is open there. A backslash
/// in a literal keeps the next character from ending it.
pub open spec fn past_char(line: Seq<char>, i: int, quote: Option<char>) -> (int, Option<char>) {
    match quote {
        Some(q) => if line[i] == '\\' && i + 1 < line.len() {
            (i + 2, quote)
        } else if line[i] == q {
            (i + 1, None)
        } else {
            (i + 1, quote)
        },
        None => if line[i] == '"' || line[i] == '\'' {
            (i + 1, Some(line[i]))
        } else {
            (i + 1, None)
        },
    }
}

fn step_over(line: &[char], i: usize, quote: Option<char>) -> (r: (usize, Option<char>))
    requires
        i < line@.len(),
    ensures
        i < r.0 <= line@.len(),
        (r.0 as int, r.1) == past_char(line@, i as int, quote),
{
    let n: usize = line.len();
    let c = line[i];
    match quote {
        Some(q) => if c == '\\' && i + 1 < n {
            (i + 2, quote)
        } else if c == q {
            (i + 1, None)
        } else {
            (i + 1, quote)
        },
        None => if c == '"' || c == '\'' {
            (i + 1, Some(c))
        } else {
            (i + 1, None)
        },
    }
}

/// Where an inline comment starts, from `i` on; not in a literal.
pub open spec fn comment_from(line: Seq<char>, i: int, quote: Option<char>) -> Option<int>
    decreases line.len() - i,
{
    if i < 0 || i >= line.len() {
        None
    } else if quote is None && occurs_at(line, "//"@, i) {
        Some(i)
    } else {
        comment_from(line, past_char(line, i, quote).0, past_char(line, i, quote).1)
    }
}

/// The code before an inline comment.
pub open spec fn code_part(line: Seq<char>) -> Seq<char> {
    match comment_from(line, 0, None) {
        Some(i) => trimmed_end(line.take(i)),
        None => line,
    }
}

/// The text of an inline comment.
pub open spec fn comment_part(line: Seq<char>) -> Option<Seq<char>> {
    match comment_from(line, 0, None) {
        Some(i) => {
            let text = trimmed(line.skip(i + 2));
            if text.len() == 0 {
                None
            } else {
                Some(text)
            }
        },
        None => None,
    }
}

fn comment_start(line: &[char]) -> (r: Option<usize>)
    ensures
        match r {
            Some(i) => comment_from(line@, 0, None) == Some(i as int) && i + 2 <= line@.len(),
            None => comment_from(line@, 0, None) is None,
        },
{
    let mut i: usize = 0;
    let mut quote: Option<char> = None;
    proof {
        reveal_strlit("//");
    }
    while i < line.len()
        invariant
            i <= line@.len(),
            "//"@.len() == 2,
            comment_from(line@, 0, None) == comment_from(line@, i as int, quote),
        decreases line.len() - i,
    {
        if quote.is_none() && stands_at(line, "//", i) {
            return Some(i);
        }
        let (next, open) = step_over(line, i, quote);
        i = next;
        quote = open;
    }
    None
}

fn split_inline_comment(line: &[char]) -> (r: (Vec<char>, Option<String>))
    ensures
        r.0@ == code_part(line@),
        opt_text(r.1) == comment_part(line@),
{
    let n: usize = line.len();
    match comment_start(line) {
        Some(i) => {
            let head = vstd::slice::slice_subrange(line, 0, i);
            assert(head@ =~= line@.take(i as int));
            let tail = vstd::slice::slice_subrange(line, i + 2, n);
            assert(tail@ =~= line@.skip(i + 2));
            let text = trim(tail);
            let comment = if text.len() == 0 {
                None
            } else {
                Some(string_of(text))
            };
            (copy_chars(trim_end(head)), comment)
        },
        None => (copy_chars(line), None),
    }
}

/// The quoted text behind a key.
pub open spec fn quoted_value(line: Seq<char>, key: Seq<char>) -> Option<Seq<char>> {
    match find(line, key, 0) {
        None => None,
        Some(i) => second_piece(line.skip(i + key.len()), '"'),
    }
}

fn quoted_arg(line: &[char], key: &str) -> (r: Option<String>)
    ensures
        opt_text(r) == quoted_value(line@, key@),
{
    match find_from(line, key, 0) {
        None => None,
        Some(i) => {
            let n: usize = line.len();
            let after = vstd::slice::slice_subrange(line, i + crate::lines::count_chars(key), n);
            assert(after@ =~= line@.skip(i + key@.len()));
            piece_between(after, '"')
        },
    }
}

/// A name made of identifier characters and dollars.
pub open spec fn is_field_name(name: Seq<char>) -> bool {
    forall|i: int| 0 <= i < name.len() ==> ident_char(#[trigger] name[i]) || name[i] == '$'
}

fn valid_field_name(name: &[char]) -> (r: bool)
    ensures
        r == is_field_name(name@),
{
    let mut i: usize = 0;
    while i < name.len()
        invariant
            i <= name@.len(),
            forall|k: int| 0 <= k < i ==> ident_char(#[trigger] name@[k]) || name@[k] == '$',
        decreases name.len() - i,
    {
        if !is_ident_char(name[i]) && name[i] != '$' {
            return false;
        }
        i = i + 1;
    }
    true
}

/// The part of a declaration before any initializer, without its semicolon.
pub open spec fn declaration_head(code: Seq<char>) -> Seq<char> {
    let head = match find_char(code, '=', 0) {
        Some(i) => code.take(i),
        None => code,
    };
    trimmed(stripped_end(trimmed(head), ";"@))
}

pub open spec fn plain_words(s: Seq<char>) -> Seq<Seq<char>> {
    words(s).filter(|w: Seq<char>| !is_modifier(w))
}

/// The name and type that the first declarator of a line of code declares.
pub open spec fn first_declared(code: Seq<char>) -> Option<(Seq<char>, Seq<char>)> {
    let head = declaration_head(code);
    let tokens = plain_words(head);
    if head.contains('(') || head.contains(')') || head.contains('{') || (words(head).len() > 0 && opens_statement(
        words(head)[0],
    )) || tokens.len() < 2 || tokens.last().len() == 0 || !is_field_name(tokens.last()) {
        None
    } else {
        Some((tokens.last(), joined(tokens.drop_last(), " "@)))
    }
}

/// The first comma from `i` on that stands in no literal and no brackets.
pub open spec fn comma_from(code: Seq<char>, i: int, depth: nat, quote: Option<char>) -> Option<int>
    decreases code.len() - i,
{
    if i < 0 || i >= code.len() {
        None
    } else {
        let c = code[i];
        let (next, open) = past_char(code, i, quote);
        if quote is Some {
            comma_from(code, next, depth, open)
        } else if c == ',' && depth == 0 {
            Some(i)
        } else if opens(c) {
            comma_from(code, next, depth + 1, open)
        } else if closes(c) && depth > 0 {
            comma_from(code, next, (depth - 1) as nat, open)
        } else {
            comma_from(code, next, depth, open)
        }
    }
}

pub open spec fn opens(c: char) -> bool {
    c == '(' || c == '[' || c == '{' || c == '<'
}

pub open spec fn closes(c: char) -> bool {
    c == ')' || c == ']' || c == '}' || c == '>'
}

/// The declarators behind the first one, from `from` on: the names among them
/// have the type of the first.
pub open spec fn more_declared(code: Seq<char>, from: int, ty: Seq<char>) -> Seq<(Seq<char>, Seq<char>)>
    decreases code.len() - from,
{
    if from < 0 || from >= code.len() {
        Seq::empty()
    } else {
        match comma_from(code.skip(from), 0, 0, None) {
            Some(k) => if 0 <= k < code.len() - from {
                named(declaration_head(code.skip(from).take(k)), ty) + more_declared(code, from + k + 1, ty)
            } else {
                Seq::empty()
            },
            None => named(declaration_head(code.skip(from)), ty),
        }
    }
}

/// A name with its type, if it is a name.
pub open spec fn named(name: Seq<char>, ty: Seq<char>) -> Seq<(Seq<char>, Seq<char>)> {
    if name.len() > 0 && is_field_name(name) {
        seq![(name, ty)]
    } else {
        Seq::empty()
    }
}

/// The names and types that a line of code declares.
pub open spec fn declared(code: Seq<char>) -> Seq<(Seq<char>, Seq<char>)> {
    if !ends(code, ";"@) {
        Seq::empty()
    } else {
        match comma_from(code, 0, 0, None) {
            None => match first_declared(code) {
                Some((name, ty)) => seq![(name, ty)],
                None => Seq::empty(),
            },
            Some(k) => match first_declared(code.take(k)) {
                Some((name, ty)) => seq![(name, ty)] + more_declared(code, k + 1, ty),
                None => Seq::empty(),
            },
        }
    }
}

/// The position behind an annotation's arguments, where parentheses stand
/// open; the end where they are not closed.
pub open spec fn arguments_end(code: Seq<char>, i: int, depth: nat, quote: Option<char>) -> int
    decreases code.len() - i,
{
    if i < 0 || i >= code.len() {
        code.len() as int
    } else {
        let (next, open) = past_char(code, i, quote);
        if quote is Some {
            arguments_end(code, next, depth, open)
        } else if code[i] == '(' {
            arguments_end(code, next, depth + 1, open)
        } else if code[i] == ')' && depth <= 1 {
            i + 1
        } else if code[i] == ')' {
            arguments_end(code, next, (depth - 1) as nat, open)
        } else {
            arguments_end(code, next, depth, open)
        }
    }
}

/// The position behind an annotation's name.
pub open spec fn annotation_name_end(code: Seq<char>, i: int) -> int
    decreases code.len() - i,
{
    if 0 <= i < code.len() && (ident_char(code[i]) || code[i] == '.') {
        annotation_name_end(code, i + 1)
    } else {
        i
    }
}

/// The code behind an annotation that it starts with.
pub open spec fn after_annotation(code: Seq<char>) -> Seq<char> {
    let i = skip_space(code, annotation_name_end(code, 1));
    if 0 <= i < code.len() && code[i] == '(' {
        trimmed_start(code.skip(arguments_end(code, i, 0, None)))
    } else {
        code.skip(i)
    }
}

/// The code behind all annotations that it starts with, and the column name
/// that the last `@Column` among them gives.
pub open spec fn without_annotations(code: Seq<char>, column: Option<Seq<char>>) -> (Seq<char>, Option<Seq<char>>)
    decreases code.len(),
{
    let rest = after_annotation(code);
    if code.len() == 0 || code[0] != '@' || rest.len() >= code.len() {
        (code, column)
    } else {
        without_annotations(
            rest,
            if begins(code, "@Column"@) {
                quoted_value(code.take(code.len() - rest.len()), "name"@)
            } else {
                column
            },
        )
    }
}

fn has_char(s: &[char], c: char) -> (r: bool)
    ensures
        r == s@.contains(c),
{
    let mut i: usize = 0;
    while i < s.len()
        invariant
            i <= s@.len(),
            forall|k: int| 0 <= k < i ==> s@[k] != c,
        decreases s.len() - i,
    {
        if s[i] == c {
            assert(s@[i as int] == c);
            return true;
        }
        i = i + 1;
    }
    false
}

fn head_of(code: &[char]) -> (r: Vec<char>)
    ensures
        r@ == declaration_head(code@),
{
    let end: usize = match char_from(code, '=', 0) {
        Some(i) => i,
        None => code.len(),
    };
    let head = vstd::slice::slice_subrange(code, 0, end);
    proof {
        match find_char(code@, '=', 0) {
            Some(i) => {
                assert(head@ =~= code@.take(i));
            },
            None => {
                assert(head@ =~= code@);
            },
        }
    }
    copy_chars(trim(strip_end(trim(head), ";")))
}

fn parse_declaration(code: &[char]) -> (r: Option<(String, String)>)
    ensures
        match r {
            Some((name, ty)) => first_declared(code@) == Some((name@, ty@)),
            None => first_declared(code@) is None,
        },
{
    let head = head_of(code);
    let decl = head.as_slice();
    if has_char(decl, '(') || has_char(decl, ')') || has_char(decl, '{') {
        return None;
    }
    let all = split_words(decl);
    let ghost ws = words(decl@);
    let ghost p = |w: Seq<char>| !is_modifier(w);
    assert(all@.len() == ws.len());
    if all.len() > 0 {
        assert(ws[0] == all@[0]@);
        if names_statement(all[0].as_str()) {
            return None;
        }
    }
    let mut tokens: Vec<String> = Vec::new();
    let mut i: usize = 0;
    proof {
        lemma_filter_ends(ws, p);
        assert(texts(tokens@) =~= Seq::empty());
    }
    while i < all.len()
        invariant
            i <= all.len(),
            ws == texts(all@),
            p == |w: Seq<char>| !is_modifier(w),
            texts(tokens@) == ws.take(i as int).filter(p),
        decreases all.len() - i,
    {
        proof {
            lemma_filter_step(ws, p, i as int);
        }
        if !names_modifier(all[i].as_str()) {
            let ghost before = tokens@;
            tokens.push(all[i].clone());
            assert(texts(tokens@) =~= texts(before).push(ws[i as int]));
        }
        i = i + 1;
    }
    proof {
        lemma_filter_ends(ws, p);
        assert(texts(tokens@) == plain_words(decl@));
        assert(texts(tokens@).len() == tokens@.len());
    }
    if tokens.len() < 2 {
        return None;
    }
    let ghost full = tokens@;
    match tokens.pop() {
        None => None,
        Some(name) => {
            assert(name@ == texts(full).last());
            assert(texts(tokens@) =~= texts(full).drop_last());
            let chars = chars_of(name.as_str());
            if chars.len() == 0 || !valid_field_name(chars.as_slice()) {
                return None;
            }
            Some((name, join(tokens.as_slice(), " ")))
        },
    }
}

fn find_comma(code: &[char]) -> (r: Option<usize>)
    ensures
        match r {
            Some(k) => comma_from(code@, 0, 0, None) == Some(k as int) && k < code@.len(),
            None => comma_from(code@, 0, 0, None) is None,
        },
{
    let mut i: usize = 0;
    let mut depth: usize = 0;
    let mut quote: Option<char> = None;
    while i < code.len()
        invariant
            depth <= i <= code@.len(),
            comma_from(code@, 0, 0, None) == comma_from(code@, i as int, depth as nat, quote),
        decreases code.len() - i,
    {
        let c = code[i];
        let (next, open) = step_over(code, i, quote);
        if quote.is_none() {
            if c == ',' && depth == 0 {
                return Some(i);
            }
            if c == '(' || c == '[' || c == '{' || c == '<' {
                depth = depth + 1;
            } else if (c == ')' || c == ']' || c == '}' || c == '>') && depth > 0 {
                depth = depth - 1;
            }
        }
        i = next;
        quote = open;
    }
    None
}

fn add_named(list: &mut Vec<(String, String)>, code: &[char], ty: &str)
    ensures
        pairs(final(list)@) == pairs(old(list)@) + named(declaration_head(code@), ty@),
{
    let ghost before = pairs(list@);
    let name = head_of(code);
    if name.len() > 0 && valid_field_name(name.as_slice()) {
        let text = string_of(name.as_slice());
        let ghost item = (text@, ty@);
        list.push((text, ty.to_owned()));
        assert(pairs(list@) =~= before + seq![item]);
    } else {
        assert(pairs(list@) =~= before + Seq::empty());
    }
}

/// The names and types that a line of code declares.
fn parse_declarations(code: &[char]) -> (r: Vec<(String, String)>)
    ensures
        pairs(r@) == declared(code@),
{
    let mut r: Vec<(String, String)> = Vec::new();
    assert(pairs(r@) =~= Seq::empty());
    if !ends_with(code, ";") {
        return r;
    }
    let n: usize = code.len();
    let comma: Option<usize> = find_comma(code);
    let end: usize = match comma {
        Some(k) => k,
        None => n,
    };
    let first = vstd::slice::slice_subrange(code, 0, end);
    assert(first@ =~= code@.take(end as int));
    assert(code@.take(n as int) =~= code@);
    let (name, ty) = match parse_declaration(first) {
        Some(pair) => pair,
        None => {
            return r;
        },
    };
    let ghost start = seq![(name@, ty@)];
    r.push((name, ty.clone()));
    assert(pairs(r@) =~= start);
    if comma.is_none() {
        return r;
    }
    let mut from: usize = end + 1;
    assert(start + more_declared(code@, from as int, ty@) == declared(code@));
    while from < n
        invariant
            0 < from <= n,
            n == code@.len(),
            declared(code@) == pairs(r@) + more_declared(code@, from as int, ty@),
        decreases n - from,
    {
        let rest = vstd::slice::slice_subrange(code, from, n);
        assert(rest@ =~= code@.skip(from as int));
        let ghost before = pairs(r@);
        match find_comma(rest) {
            Some(k) => {
                let part = vstd::slice::slice_subrange(rest, 0, k);
                assert(part@ =~= rest@.take(k as int));
                add_named(&mut r, part, ty.as_str());
                proof {
                    let now = named(declaration_head(part@), ty@);
                    let later = more_declared(code@, from + k + 1, ty@);
                    assert(before + (now + later) =~= (before + now) + later);
                }
                from = from + k + 1;
            },
            None => {
                add_named(&mut r, rest, ty.as_str());
                return r;
            },
        }
    }
    assert(pairs(r@) + Seq::empty() =~= pairs(r@));
    r
}

fn skip_arguments(code: &[char], start: usize) -> (r: usize)
    requires
        start <= code@.len(),
    ensures
        r == arguments_end(code@, start as int, 0, None),
        r <= code@.len(),
{
    let mut i: usize = start;
    let mut depth: usize = 0;
    let mut quote: Option<char> = None;
    while i < code.len()
        invariant
            depth <= i <= code@.len(),
            arguments_end(code@, start as int, 0, None) == arguments_end(code@, i as int, depth as nat, quote),
        decreases code.len() - i,
    {
        let c = code[i];
        let (next, open) = step_over(code, i, quote);
        if quote.is_none() {
            if c == '(' {
                depth = depth + 1;
            } else if c == ')' {
                if depth <= 1 {
                    return i + 1;
                }
                depth = depth - 1;
            }
        }
        i = next;
        quote = open;
    }
    code.len()
}

fn skip_annotation(code: &[char]) -> (r: Vec<char>)
    requires
        code@.len() > 0,
    ensures
        r@ == after_annotation(code@),
{
    let n: usize = code.len();
    let mut i: usize = 1;
    while i < n && (is_ident_char(code[i]) || code[i] == '.')
        invariant
            1 <= i <= n == code@.len(),
            annotation_name_end(code@, 1) == annotation_name_end(code@, i as int),
        decreases n - i,
    {
        i = i + 1;
    }
    let at: usize = after_space(code, i);
    if at < n && code[at] == '(' {
        let rest = vstd::slice::slice_subrange(code, skip_arguments(code, at), n);
        assert(rest@ =~= code@.skip(arguments_end(code@, at as int, 0, None)));
        copy_chars(trim_start(rest))
    } else {
        let rest = vstd::slice::slice_subrange(code, at, n);
        assert(rest@ =~= code@.skip(at as int));
        copy_chars(rest)
    }
}

/// Takes the annotations off a line of code.
fn strip_annotations(code: &[char], column: Option<String>) -> (r: (Vec<char>, Option<String>))
    ensures
        (r.0@, opt_text(r.1)) == without_annotations(code@, opt_text(column)),
{
    let ghost goal = without_annotations(code@, opt_text(column));
    let mut text: Vec<char> = copy_chars(code);
    let mut name: Option<String> = copy_opt(&column);
    while text.len() > 0 && text[0] == '@'
        invariant
            goal == without_annotations(code@, opt_text(column)),
            goal == without_annotations(text@, opt_text(name)),
        decreases text@.len(),
    {
        let rest = skip_annotation(text.as_slice());
        if rest.len() >= text.len() {
            return (text, name);
        }
        if starts_with(text.as_slice(), "@Column") {
            let own = vstd::slice::slice_subrange(text.as_slice(), 0, text.len() - rest.len());
            assert(own@ =~= text@.take(text@.len() - rest@.len()));
            name = quoted_arg(own, "name");
        }
        text = rest;
    }
    (text, name)
}

/// What has been read so far: the fields, and what waits for the next one.
#[verifier::ext_equal]
pub struct FieldState {
    pub decls: Seq<FieldView>,
    pub doc: Option<Seq<char>>,
    pub column: Option<Seq<char>>,
    pub in_javadoc: bool,
}

/// What one more line does.
pub open spec fn field_step(state: FieldState, line: Seq<char>) -> FieldState {
    let t = trimmed(line);
    let code = code_part(t);
    let comment = comment_part(t);
    if state.in_javadoc {
        FieldState {
            decls: state.decls,
            doc: match state.doc {
                Some(d) => Some(d),
                None => javadoc_line(t),
            },
            column: state.column,
            in_javadoc: !ends(t, "*/"@),
        }
    } else if begins(t, "/**"@) {
        FieldState {
            decls: state.decls,
            doc: javadoc_line(t),
            column: state.column,
            in_javadoc: !ends(t, "*/"@),
        }
    } else if t.len() == 0 {
        state
    } else if code.len() == 0 {
        FieldState {
            decls: state.decls,
            doc: match comment {
                Some(c) => Some(c),
                None => state.doc,
            },
            column: state.column,
            in_javadoc: false,
        }
    } else {
        let (rest, column) = without_annotations(code, state.column);
        if rest.len() == 0 {
            FieldState { column, in_javadoc: false, ..state }
        } else {
            let doc = match comment {
                Some(c) => Some(c),
                None => state.doc,
            };
            FieldState {
                decls: state.decls + declared(rest).map_values(
                    |d: (Seq<char>, Seq<char>)|
                        FieldView { field_name: d.0, declared_type: d.1, column_name: column, doc },
                ),
                doc: None,
                column: None,
                in_javadoc: false,
            }
        }
    }
}

/// The state after a number of lines.
pub open spec fn fields_after(lines: Seq<Seq<char>>) -> FieldState
    decreases lines.len(),
{
    if lines.len() == 0 {
        FieldState { decls: Seq::empty(), doc: None, column: None, in_javadoc: false }
    } else {
        field_step(fields_after(lines.drop_last()), lines.last())
    }
}

/// All fields that a Java source declares.
pub open spec fn fields_in(source: Seq<char>) -> Seq<FieldView> {
    fields_after(lines(source)).decls
}

spec fn field_views(v: Seq<FieldDecl>) -> Seq<FieldView> {
    v.map_values(|d: FieldDecl| d@)
}

fn add_fields(decls: &mut Vec<FieldDecl>, names: Vec<(String, String)>, column: &Option<String>, doc: &Option<String>)
    ensures
        field_views(final(decls)@) == field_views(old(decls)@) + pairs(names@).map_values(
            |d: (Seq<char>, Seq<char>)|
                FieldView {
                    field_name: d.0,
                    declared_type: d.1,
                    column_name: opt_text(*column),
                    doc: opt_text(*doc),
                },
        ),
{
    let ghost start = field_views(decls@);
    let ghost all = pairs(names@).map_values(
        |d: (Seq<char>, Seq<char>)|
            FieldView {
                field_name: d.0,
                declared_type: d.1,
                column_name: opt_text(*column),
                doc: opt_text(*doc),
            },
    );
    let mut i: usize = 0;
    assert(start + all.take(0) =~= start);
    while i < names.len()
        invariant
            i <= names@.len(),
            all == pairs(names@).map_values(
                |d: (Seq<char>, Seq<char>)|
                    FieldView {
                        field_name: d.0,
                        declared_type: d.1,
                        column_name: opt_text(*column),
                        doc: opt_text(*doc),
                    },
            ),
            field_views(decls@) == start + all.take(i as int),
        decreases names.len() - i,
    {
        let p = &names[i];
        let decl = FieldDecl {
            field_name: p.0.clone(),
            declared_type: p.1.clone(),
            column_name: copy_opt(column),
            doc: copy_opt(doc),
        };
        let ghost before = field_views(decls@);
        let ghost item = decl@;
        assert(pairs(names@)[i as int] == (p.0@, p.1@));
        assert(item == all[i as int]);
        decls.push(decl);
        assert(field_views(decls@) =~= before.push(item));
        i = i + 1;
        assert(field_views(decls@) =~= start + all.take(i as int));
    }
    assert(all.take(i as int) =~= all);
}

/// Parse all field declarations from a Java source file, attaching JPA
/// `@Column` names and documentation comments to each field.
pub fn parse_field_declarations(source: &str) -> (r: Vec<FieldDecl>)
    ensures
        r@.map_values(|d: FieldDecl| d@) == fields_in(source@),
{
    let mut decls: Vec<FieldDecl> = Vec::new();
    let mut doc: Option<String> = None;
    let mut column: Option<String> = None;
    let mut in_javadoc = false;
    let all = lines_of(chars_of(source).as_slice());
    let ghost ls = lines(source@);
    let mut i: usize = 0;
    proof {
        assert(field_views(decls@) =~= Seq::empty());
        assert(ls.take(0) =~= Seq::empty());
    }
    while i < all.len()
        invariant
            i <= all.len(),
            ls == char_lists(all@),
            fields_after(ls.take(i as int)) == (FieldState {
                decls: field_views(decls@),
                doc: opt_text(doc),
                column: opt_text(column),
                in_javadoc,
            }),
        decreases all.len() - i,
    {
        proof {
            assert(ls[i as int] == all@[i as int]@);
            assert(ls.take(i + 1).drop_last() =~= ls.take(i as int));
        }
        let t = trim(all[i].as_slice());
        if in_javadoc {
            if doc.is_none() {
                doc = javadoc_text(t);
            }
            in_javadoc = !ends_with(t, "*/");
        } else if starts_with(t, "/**") {
            doc = javadoc_text(t);
            in_javadoc = !ends_with(t, "*/");
        } else if t.len() == 0 {
        } else {
            let (code, comment) = split_inline_comment(t);
            if code.len() == 0 {
                if comment.is_some() {
                    doc = comment;
                }
            } else {
                let (rest, name) = strip_annotations(code.as_slice(), column);
                if rest.len() == 0 {
                    column = name;
                } else {
                    let text = if comment.is_some() {
                        comment
                    } else {
                        doc
                    };
                    add_fields(&mut decls, parse_declarations(rest.as_slice()), &name, &text);
                    doc = None;
                    column = None;
                }
            }
        }
        i = i + 1;
    }
    assert(ls.take(i as int) =~= ls);
    decls
}

/// A name with its first character in upper case.
pub open spec fn capitalized(s: Seq<char>) -> Seq<char> {
    if s.len() == 0 {
        s
    } else {
        uppercase(seq![s[0]]) + s.skip(1)
    }
}

fn capitalize(s: &str) -> (r: String)
    ensures
        r@ == capitalized(s@),
{
    let chars = chars_of(s);
    if chars.len() == 0 {
        return String::new();
    }
    let first = vstd::slice::slice_subrange(chars.as_slice(), 0, 1);
    assert(first@ =~= seq![s@[0]]);
    let mut r = string_of(first).to_uppercase();
    let rest = vstd::slice::slice_subrange(chars.as_slice(), 1, chars.len());
    assert(rest@ =~= s@.skip(1));
    r.append(string_of(rest).as_str());
    r
}

fn call_pattern(prefix: &str, field_name: &str) -> (r: String)
    ensures
        r@ == prefix@ + capitalized(field_name@) + "("@,
{
    let mut r = prefix.to_owned();
    r.append(capitalize(field_name).as_str());
    r.append("(");
    r
}

/// JavaBeans getter call patterns for a field, e.g. `.getEmail(` / `.isActive(`.
pub fn getter_patterns(field_name: &str) -> (r: Vec<String>)
    ensures
        texts(r@) == seq![
            ".get"@ + capitalized(field_name@) + "("@,
            ".is"@ + capitalized(field_name@) + "("@,
        ],
{
    let mut r: Vec<String> = Vec::new();
    r.push(call_pattern(".get", field_name));
    r.push(call_pattern(".is", field_name));
    assert(texts(r@) =~= seq![
        ".get"@ + capitalized(field_name@) + "("@,
        ".is"@ + capitalized(field_name@) + "("@,
    ]);
    r
}

/// JavaBeans setter call pattern for a field, e.g. `.setEmail(`.
pub fn setter_pattern(field_name: &str) -> (r: String)
    ensures
        r@ == ".set"@ + capitalized(field_name@) + "("@,
{
    call_pattern(".set", field_name)
}

/// `.field` stands at `i` and the identifier ends there.
pub open spec fn access_at(line: Seq<char>, field_name: Seq<char>, i: int) -> bool {
    let pattern = "."@ + field_name;
    occurs_at(line, pattern, i) && free_at(line, i + pattern.len())
}

/// The first direct access to a field at or after `from`.
pub open spec fn find_access(line: Seq<char>, field_name: Seq<char>, from: int) -> Option<int>
    decreases line.len() - from,
{
    if from < 0 || from >= line.len() {
        None
    } else if access_at(line, field_name, from) {
        Some(from)
    } else {
        find_access(line, field_name, from + 1)
    }
}

fn direct_access_position(line: &[char], field_name: &str) -> (r: Option<usize>)
    ensures
        match r {
            Some(i) => find_access(line@, field_name@, 0) == Some(i as int),
            None => find_access(line@, field_name@, 0) is None,
        },
        r matches Some(i) ==> i + field_name@.len() + 1 <= line@.len(),
{
    let mut pattern = ".".to_owned();
    pattern.append(field_name);
    let n: usize = crate::lines::count_chars(pattern.as_str());
    proof {
        reveal_strlit(".");
    }
    let mut i: usize = 0;
    while i < line.len()
        invariant
            i <= line@.len(),
            pattern@ == "."@ + field_name@,
            n == pattern@.len(),
            n == field_name@.len() + 1,
            find_access(line@, field_name@, 0) == find_access(line@, field_name@, i as int),
        decreases line.len() - i,
    {
        if stands_at(line, pattern.as_str(), i) && is_free_at(line, i + n) {
            return Some(i);
        }
        i = i + 1;
    }
    None
}

/// True if `line` contains a direct access `.field` (with an identifier
/// boundary after it, so `id` does not match `.identifier`).
pub fn has_direct_field_access(line: &str, field_name: &str) -> (r: bool)
    ensures
        r == (find_access(line@, field_name@, 0) is Some),
{
    direct_access_position(chars_of(line).as_slice(), field_name).is_some()
}

/// An assignment sign follows, and no comparison.
pub open spec fn assigns(rest: Seq<char>) -> bool {
    begins(trimmed_start(rest), "="@) && !begins(trimmed_start(rest), "=="@)
}

fn is_assignment(rest: &[char]) -> (r: bool)
    ensures
        r == assigns(rest@),
{
    let text = trim_start(rest);
    starts_with(text, "=") && !starts_with(text, "==")
}

/// `.field` is assigned to at `i`.
pub open spec fn write_at(line: Seq<char>, field_name: Seq<char>, i: int) -> bool {
    access_at(line, field_name, i) && assigns(line.skip(i + field_name.len() + 1))
}

/// True if the line assigns to `.field` (`x.field = ...`, but not `==`).
pub fn is_direct_field_write(line: &str, field_name: &str) -> (r: bool)
    ensures
        r == exists|i: int| 0 <= i < line@.len() && #[trigger] write_at(line@, field_name@, i),
{
    let chars = chars_of(line);
    let mut pattern = ".".to_owned();
    pattern.append(field_name);
    let m: usize = crate::lines::count_chars(pattern.as_str());
    let n: usize = chars.len();
    proof {
        reveal_strlit(".");
    }
    let mut i: usize = 0;
    while i < n
        invariant
            i <= n == line@.len(),
            chars@ == line@,
            pattern@ == "."@ + field_name@,
            m == pattern@.len(),
            m == field_name@.len() + 1,
            forall|k: int| 0 <= k < i ==> !#[trigger] write_at(line@, field_name@, k),
        decreases n - i,
    {
        if stands_at(chars.as_slice(), pattern.as_str(), i) && is_free_at(chars.as_slice(), i + m) {
            let rest = vstd::slice::slice_subrange(chars.as_slice(), i + m, n);
            assert(rest@ =~= line@.skip(i + field_name@.len() + 1));
            if is_assignment(rest) {
                assert(write_at(line@, field_name@, i as int));
                return true;
            }
        }
        i = i + 1;
    }
    false
}

/// A prefix followed by an upper-case letter.
pub open spec fn bean_name(label: Seq<char>, prefix: Seq<char>) -> bool {
    begins(label, prefix) && prefix.len() < label.len() && is_upper(label[prefix.len() as int])
}

/// A JavaBeans accessor name: `getX`, `setX` or `isX`.
pub open spec fn accessor_name(label: Seq<char>) -> bool {
    bean_name(label, "get"@) || bean_name(label, "set"@) || bean_name(label, "is"@)
}

fn is_bean_name(label: &[char], prefix: &str) -> (r: bool)
    ensures
        r == bean_name(label@, prefix@),
{
    let n: usize = crate::lines::count_chars(prefix);
    starts_with(label, prefix) && n < label.len() && label[n].is_uppercase()
}

/// True for the name of a JavaBeans accessor.
pub fn is_accessor(label: &str) -> (r: bool)
    ensures
        r == accessor_name(label@),
{
    let chars = chars_of(label);
    is_bean_name(chars.as_slice(), "get") || is_bean_name(chars.as_slice(), "set") || is_bean_name(
        chars.as_slice(),
        "is",
    )
}

/// The entity that a repository type name stands for.
pub open spec fn entity_of_repository(ty: Seq<char>) -> Option<Seq<char>> {
    if ends(ty, "Repository"@) && ty.len() > "Repository"@.len() {
        Some(ty.take(ty.len() - "Repository"@.len()))
    } else if ends(ty, "Dao"@) && ty.len() > "Dao"@.len() {
        Some(ty.take(ty.len() - "Dao"@.len()))
    } else {
        None
    }
}

fn head_before(name: &[char], suffix: &str) -> (r: Option<String>)
    ensures
        opt_text(r) == if ends(name@, suffix@) && name@.len() > suffix@.len() {
            Some(name@.take(name@.len() - suffix@.len()))
        } else {
            None
        },
{
    let n: usize = crate::lines::count_chars(suffix);
    let len: usize = name.len();
    if ends_with(name, suffix) && len > n {
        let head = vstd::slice::slice_subrange(name, 0, len - n);
        assert(head@ =~= name@.take(name@.len() - suffix@.len()));
        Some(string_of(head))
    } else {
        None
    }
}

/// Entity simple name of a repository-ish type: `UserRepository` and
/// `UserDao` both stand for `User`.
pub fn repository_entity_name(ty: &str) -> (r: Option<String>)
    ensures
        opt_text(r) == entity_of_repository(ty@),
{
    let chars = chars_of(ty);
    let found = head_before(chars.as_slice(), "Repository");
    if found.is_some() {
        return found;
    }
    head_before(chars.as_slice(), "Dao")
}

/// The CRUD letters that a repository method name stands for.
pub open spec fn operation_of(method: Seq<char>) -> Option<Seq<char>> {
    if begins(method, "save"@) {
        Some("CU"@)
    } else if begins(method, "insert"@) || begins(method, "create"@) || begins(method, "add"@) || begins(
        method,
        "persist"@,
    ) {
        Some("C"@)
    } else if begins(method, "find"@) || begins(method, "get"@) || begins(method, "read"@) || begins(method, "query"@)
        || begins(method, "search"@) || begins(method, "select"@) || begins(method, "list"@) || begins(
        method,
        "load"@,
    ) || begins(method, "count"@) || begins(method, "exists"@) {
        Some("R"@)
    } else if begins(method, "update"@) {
        Some("U"@)
    } else if begins(method, "delete"@) || begins(method, "remove"@) {
        Some("D"@)
    } else {
        None
    }
}

/// CRUD letters of a repository method by naming convention, e.g. `findById`
/// reads and `save` creates or updates.
pub fn repository_operation(method: &str) -> (r: Option<&'static str>)
    ensures
        match r {
            Some(ops) => operation_of(method@) == Some(ops@),
            None => operation_of(method@) is None,
        },
{
    let m = chars_of(method);
    let m = m.as_slice();
    if starts_with(m, "save") {
        Some("CU")
    } else if starts_with(m, "insert") || starts_with(m, "create") || starts_with(m, "add") || starts_with(
        m,
        "persist",
    ) {
        Some("C")
    } else if starts_with(m, "find") || starts_with(m, "get") || starts_with(m, "read") || starts_with(m, "query")
        || starts_with(m, "search") || starts_with(m, "select") || starts_with(m, "list") || starts_with(m, "load")
        || starts_with(m, "count") || starts_with(m, "exists") {
        Some("R")
    } else if starts_with(m, "update") {
        Some("U")
    } else if starts_with(m, "delete") || starts_with(m, "remove") {
        Some("D")
    } else {
        None
    }
}

/// The name in a `@Table(name = "...")` annotation.
pub open spec fn table_annotation(source: Seq<char>) -> Option<Seq<char>> {
    match find(source, "@Table"@, 0) {
        None => None,
        Some(i) => quoted_value(source.skip(i), "name"@),
    }
}

/// Table name from a JPA `@Table(name = "...")` annotation, if present.
pub fn table_annotation_name(source: &str) -> (r: Option<String>)
    ensures
        opt_text(r) == table_annotation(source@),
{
    let chars = chars_of(source);
    match find_from(chars.as_slice(), "@Table", 0) {
        None => None,
        Some(i) => {
            let rest = vstd::slice::slice_subrange(chars.as_slice(), i, chars.len());
            assert(rest@ =~= source@.skip(i as int));
            quoted_arg(rest, "name")
        },
    }
}

/// A camel-case name with an underscore before each upper-case letter but the first character.
pub open spec fn with_underscores(s: Seq<char>) -> Seq<char>
    decreases s.len(),
{
    if s.len() == 0 {
        s
    } else {
        let front = with_underscores(s.drop_last());
        if s.len() > 1 && is_upper(s.last()) {
            front.push('_').push(s.last())
        } else {
            front.push(s.last())
        }
    }
}

/// SQL name of a Java name by convention: `OrderItem` becomes `order_item`.
pub fn default_sql_name(simple: &str) -> (r: String)
    ensures
        r@ == lowercase(with_underscores(simple@)),
{
    let chars = chars_of(simple);
    let mut out: Vec<char> = Vec::new();
    let mut i: usize = 0;
    while i < chars.len()
        invariant
            i <= chars@.len(),
            out@ == with_underscores(chars@.take(i as int)),
        decreases chars.len() - i,
    {
        assert(chars@.take(i + 1).drop_last() =~= chars@.take(i as int));
        if i > 0 && chars[i].is_uppercase() {
            out.push('_');
        }
        out.push(chars[i]);
        i = i + 1;
    }
    assert(chars@.take(i as int) =~= chars@);
    string_of(out.as_slice()).to_lowercase()
}

} // verus!
