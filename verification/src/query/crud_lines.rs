//! Repository variables and the calls on them, as Java lines show them.

use vstd::prelude::*;

use crate::lines::{
    char_lists, count_chars, free_before, ident_char, is_free_before, is_ident_char, lines, lines_of, opt_text,
};
use crate::order::{lemma_sorted_map, sort_stable, stable_sorted, total_preorder};
use crate::query::java::{entity_of_repository, repository_entity_name};
use crate::query::reach::edge_views;
use crate::seqs::without_repeats;
use crate::text::{
    at_most, chars_of, find, find_from, is_lower, is_space, lemma_lex_total, lemma_lex_transitive, lex_le,
    same, space, string_of, texts,
};

verus! {

/// A character that separates tokens.
pub open spec fn separates(c: char) -> bool {
    is_space(c) || c == '(' || c == ')' || c == ',' || c == ';'
}

/// The tokens of a line so far, and the one that is being read.
pub open spec fn tokens_so_far(line: Seq<char>) -> (Seq<Seq<char>>, Seq<char>)
    decreases line.len(),
{
    if line.len() == 0 {
        (Seq::empty(), Seq::empty())
    } else {
        let (done, open) = tokens_so_far(line.drop_last());
        if !separates(line.last()) {
            (done, open.push(line.last()))
        } else if open.len() == 0 {
            (done, open)
        } else {
            (done.push(open), Seq::empty())
        }
    }
}

/// The tokens of a line.
pub open spec fn tokens(line: Seq<char>) -> Seq<Seq<char>> {
    let (done, open) = tokens_so_far(line);
    if open.len() == 0 {
        done
    } else {
        done.push(open)
    }
}

/// A name that a variable can have: identifier characters, the first of them
/// in lower case.
pub open spec fn is_variable(s: Seq<char>) -> bool {
    s.len() > 0 && is_lower(s[0]) && forall|i: int| 0 <= i < s.len() ==> ident_char(#[trigger] s[i])
}

/// The repository variables that the first `n` pairs of neighbouring tokens
/// declare.
pub open spec fn bindings_in(words: Seq<Seq<char>>, n: int) -> Seq<(Seq<char>, Seq<char>)>
    decreases n,
{
    if n <= 0 {
        Seq::empty()
    } else {
        let before = bindings_in(words, n - 1);
        match entity_of_repository(words[n - 1]) {
            Some(entity) => if is_variable(words[n]) {
                before.push((words[n], entity))
            } else {
                before
            },
            None => before,
        }
    }
}

pub open spec fn bindings_of_line(line: Seq<char>) -> Seq<(Seq<char>, Seq<char>)> {
    bindings_in(tokens(line), tokens(line).len() - 1)
}

pub open spec fn bindings_of_lines(all: Seq<Seq<char>>) -> Seq<(Seq<char>, Seq<char>)>
    decreases all.len(),
{
    if all.len() == 0 {
        Seq::empty()
    } else {
        bindings_of_lines(all.drop_last()) + bindings_of_line(all.last())
    }
}

/// Pairs in ascending order.
pub open spec fn by_pair() -> spec_fn((Seq<char>, Seq<char>), (Seq<char>, Seq<char>)) -> bool {
    |a: (Seq<char>, Seq<char>), b: (Seq<char>, Seq<char>)|
        if a.0 == b.0 {
            lex_le(a.1, b.1)
        } else {
            lex_le(a.0, b.0)
        }
}

/// The repository variables of a source with the entities they stand for, in
/// order and once each.
pub open spec fn bindings_of(content: Seq<char>) -> Seq<(Seq<char>, Seq<char>)> {
    without_repeats(stable_sorted(bindings_of_lines(lines(content)), by_pair()))
}

/// The end of the identifier characters from `i` on.
pub open spec fn ident_end(s: Seq<char>, i: int) -> int
    decreases s.len() - i,
{
    if 0 <= i < s.len() && ident_char(s[i]) {
        ident_end(s, i + 1)
    } else {
        i
    }
}

/// The method that is called at a position: a name and an opening bracket.
pub open spec fn method_at(line: Seq<char>, from: int) -> Option<Seq<char>> {
    let end = ident_end(line, from);
    if 0 <= from < end < line.len() && line[end] == '(' {
        Some(line.subrange(from, end))
    } else {
        None
    }
}

/// The first method that is called on a variable from `from` on.
pub open spec fn call_after(line: Seq<char>, pattern: Seq<char>, from: int) -> Option<Seq<char>>
    decreases line.len() + 1 - from,
{
    match find(line, pattern, from) {
        None => None,
        Some(i) => if i < from || i >= line.len() {
            None
        } else if free_before(line, i) && method_at(line, i + pattern.len()) is Some {
            method_at(line, i + pattern.len())
        } else {
            call_after(line, pattern, i + 1)
        },
    }
}

/// The method that a line calls on a variable.
pub open spec fn called_on(line: Seq<char>, var: Seq<char>) -> Option<Seq<char>> {
    call_after(line, var + "."@, 0)
}

fn split_tokens(line: &[char]) -> (r: Vec<String>)
    ensures
        texts(r@) == tokens(line@),
{
    let mut done: Vec<String> = Vec::new();
    let mut open: Vec<char> = Vec::new();
    let mut i: usize = 0;
    assert(texts(done@) =~= Seq::empty());
    while i < line.len()
        invariant
            i <= line@.len(),
            (texts(done@), open@) == tokens_so_far(line@.take(i as int)),
        decreases line.len() - i,
    {
        assert(line@.take(i + 1).drop_last() =~= line@.take(i as int));
        let c = line[i];
        if space(c) || c == '(' || c == ')' || c == ',' || c == ';' {
            if open.len() > 0 {
                let ghost before = texts(done@);
                let word = string_of(open.as_slice());
                let ghost w = word@;
                done.push(word);
                assert(texts(done@) =~= before.push(w));
                open = Vec::new();
                assert(open@ =~= Seq::empty());
            }
        } else {
            open.push(c);
        }
        i = i + 1;
    }
    assert(line@.take(i as int) =~= line@);
    if open.len() > 0 {
        let ghost before = texts(done@);
        let word = string_of(open.as_slice());
        let ghost w = word@;
        done.push(word);
        assert(texts(done@) =~= before.push(w));
    }
    done
}

fn names_variable(s: &str) -> (r: bool)
    ensures
        r == is_variable(s@),
{
    let chars = chars_of(s);
    if chars.len() == 0 || !chars[0].is_lowercase() {
        return false;
    }
    let mut i: usize = 0;
    while i < chars.len()
        invariant
            i <= chars@.len(),
            chars@ == s@,
            forall|j: int| 0 <= j < i ==> ident_char(#[trigger] chars@[j]),
        decreases chars.len() - i,
    {
        if !is_ident_char(chars[i]) {
            return false;
        }
        i = i + 1;
    }
    true
}

fn add_bindings(found: &mut Vec<(String, String)>, line: &[char])
    ensures
        edge_views(final(found)@) == edge_views(old(found)@) + bindings_of_line(line@),
{
    let ghost start = edge_views(found@);
    let words = split_tokens(line);
    let ghost all = tokens(line@);
    assert(all.len() == words@.len());
    let mut i: usize = 1;
    assert(start + bindings_in(all, 0) =~= start);
    if words.len() == 0 {
        return ;
    }
    while i < words.len()
        invariant
            all == texts(words@),
            1 <= i <= words@.len(),
            edge_views(found@) == start + bindings_in(all, i - 1),
        decreases words.len() - i,
    {
        assert(all[i - 1] == words@[i - 1]@);
        assert(all[i as int] == words@[i as int]@);
        match repository_entity_name(words[i - 1].as_str()) {
            Some(entity) => {
                if names_variable(words[i].as_str()) {
                    let ghost before = edge_views(found@);
                    let ghost pair = (words@[i as int]@, entity@);
                    found.push((words[i].clone(), entity));
                    assert(edge_views(found@) =~= before.push(pair));
                    assert(before.push(pair) =~= start + bindings_in(all, i - 1).push(pair));
                }
            },
            None => {},
        }
        i = i + 1;
    }
}

fn pair_at_most(a: &(String, String), b: &(String, String)) -> (r: bool)
    ensures
        r == by_pair()((a.0@, a.1@), (b.0@, b.1@)),
{
    if same(a.0.as_str(), b.0.as_str()) {
        at_most(a.1.as_str(), b.1.as_str())
    } else {
        at_most(a.0.as_str(), b.0.as_str())
    }
}

spec fn pair_order() -> spec_fn((String, String), (String, String)) -> bool {
    |a: (String, String), b: (String, String)| by_pair()((a.0@, a.1@), (b.0@, b.1@))
}

proof fn lemma_pair_order()
    ensures
        total_preorder(pair_order()),
{
    let le = pair_order();
    assert forall|a: (String, String), b: (String, String)| #[trigger] le(a, b) || le(b, a) by {
        lemma_lex_total(a.0@, b.0@);
        lemma_lex_total(a.1@, b.1@);
    }
    assert forall|a: (String, String), b: (String, String), c: (String, String)| #[trigger]
        le(a, b) && #[trigger] le(b, c) implies le(a, c) by {
        lemma_lex_total(a.0@, c.0@);
        lemma_lex_total(a.0@, b.0@);
        lemma_lex_total(b.0@, c.0@);
        if lex_le(a.0@, b.0@) && lex_le(b.0@, c.0@) {
            lemma_lex_transitive(a.0@, b.0@, c.0@);
        }
        if lex_le(a.1@, b.1@) && lex_le(b.1@, c.1@) {
            lemma_lex_transitive(a.1@, b.1@, c.1@);
        }
    }
}

/// Variables of repository types declared in a Java source:
/// `UserRepository repository` gives `("repository", "User")`.
pub fn repository_bindings(content: &str) -> (r: Vec<(String, String)>)
    ensures
        edge_views(r@) == bindings_of(content@),
{
    let list = lines_of(chars_of(content).as_slice());
    let ghost all = lines(content@);
    assert(char_lists(list@) == all);
    let mut found: Vec<(String, String)> = Vec::new();
    let mut i: usize = 0;
    assert(edge_views(found@) =~= Seq::empty());
    while i < list.len()
        invariant
            all == char_lists(list@),
            i <= list@.len(),
            edge_views(found@) == bindings_of_lines(all.take(i as int)),
        decreases list.len() - i,
    {
        assert(all[i as int] == list@[i as int]@);
        assert(all.take(i + 1).drop_last() =~= all.take(i as int));
        add_bindings(&mut found, list[i].as_slice());
        i = i + 1;
    }
    assert(all.take(i as int) =~= all);
    let compare = |a: &(String, String), b: &(String, String)| -> (t: bool)
        ensures
            t == pair_order()(*a, *b),
        { pair_at_most(a, b) };
    proof {
        lemma_pair_order();
        lemma_sorted_map(found@, |p: (String, String)| (p.0@, p.1@), pair_order(), by_pair());
    }
    let sorted = sort_stable(found, &compare, Ghost(pair_order()));
    let ghost sv = edge_views(sorted@);
    let mut r: Vec<(String, String)> = Vec::new();
    let mut k: usize = 0;
    assert(edge_views(r@) =~= sv.take(0));
    while k < sorted.len()
        invariant
            sv == edge_views(sorted@),
            k <= sorted@.len(),
            edge_views(r@) == without_repeats(sv.take(k as int)),
        decreases sorted.len() - k,
    {
        let ghost next = sv.take(k + 1);
        assert(next.drop_last() =~= sv.take(k as int));
        assert(sv[k as int] == (sorted@[k as int].0@, sorted@[k as int].1@));
        let repeated: bool = k > 0 && same(sorted[k].0.as_str(), sorted[k - 1].0.as_str()) && same(
            sorted[k].1.as_str(),
            sorted[k - 1].1.as_str(),
        );
        if !repeated {
            let ghost before = edge_views(r@);
            r.push((sorted[k].0.clone(), sorted[k].1.clone()));
            assert(edge_views(r@) =~= before.push(sv[k as int]));
            assert(edge_views(r@) =~= without_repeats(next));
        }
        k = k + 1;
    }
    assert(sv.take(k as int) =~= sv);
    r
}

fn method_from(line: &[char], from: usize) -> (r: Option<String>)
    requires
        from <= line@.len(),
    ensures
        opt_text(r) == method_at(line@, from as int),
{
    let mut end: usize = from;
    while end < line.len() && is_ident_char(line[end])
        invariant
            from <= end <= line@.len(),
            ident_end(line@, from as int) == ident_end(line@, end as int),
        decreases line.len() - end,
    {
        end = end + 1;
    }
    if from < end && end < line.len() && line[end] == '(' {
        Some(string_of(vstd::slice::slice_subrange(line, from, end)))
    } else {
        None
    }
}

/// The method that a line calls on a variable: `repository.save(user)` calls
/// `save` on `repository`.
pub fn called_method_on(line: &str, var: &str) -> (r: Option<String>)
    ensures
        opt_text(r) == called_on(line@, var@),
{
    let chars = chars_of(line);
    let line_chars = chars.as_slice();
    let mut pattern = var.to_owned();
    pattern.append(".");
    let n: usize = count_chars(pattern.as_str());
    let len: usize = chars.len();
    let mut from: usize = 0;
    proof {
        reveal_strlit(".");
    }
    loop
        invariant
            line_chars@ == line@,
            len == line@.len(),
            n == pattern@.len(),
            n > 0,
            pattern@ == var@ + "."@,
            from <= len,
            called_on(line@, var@) == call_after(line@, pattern@, from as int),
        decreases len - from,
    {
        match find_from(line_chars, pattern.as_str(), from) {
            None => {
                return None;
            },
            Some(i) => {
                if is_free_before(line_chars, i) {
                    let found = method_from(line_chars, i + n);
                    if found.is_some() {
                        return found;
                    }
                }
                from = i + 1;
            },
        }
    }
}

} // verus!
