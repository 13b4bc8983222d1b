//! What the operations on text do.

use vstd::prelude::*;

use crate::lines::{content_end, line_from, lines, lines_from, pieces, pieces_from, trimmed, trimmed_end};
use crate::text::{find_char, is_space, joined, occurs_at, skip_space, word_end, words, words_from};

verus! {

/// A text stands somewhere in another.
pub open spec fn holds(s: Seq<char>, part: Seq<char>) -> bool {
    exists|k: int| #[trigger] occurs_at(s, part, k)
}

/// What stands in a part of a text stands in the text.
pub proof fn lemma_holds_inside(before: Seq<char>, s: Seq<char>, after: Seq<char>, part: Seq<char>)
    requires
        holds(s, part),
    ensures
        holds(before + s + after, part),
{
    let k = choose|k: int| #[trigger] occurs_at(s, part, k);
    let all = before + s + after;
    assert(all.subrange(before.len() + k, before.len() + k + part.len()) =~= s.subrange(k, k + part.len()));
    assert(occurs_at(all, part, before.len() + k));
}

/// Every text stands in itself.
pub proof fn lemma_holds_self(s: Seq<char>)
    ensures
        holds(s, s),
{
    assert(s.subrange(0, s.len() as int) =~= s);
    assert(occurs_at(s, s, 0));
}

/// Joined texts name every one of them.
pub proof fn law_joined_holds(parts: Seq<Seq<char>>, separator: Seq<char>, i: int)
    requires
        0 <= i < parts.len(),
    ensures
        holds(joined(parts, separator), parts[i]),
    decreases parts.len(),
{
    if parts.len() == 1 {
        lemma_holds_self(parts[0]);
    } else {
        let head = joined(parts.drop_last(), separator);
        let e = Seq::<char>::empty();
        if i == parts.len() - 1 {
            lemma_holds_self(parts[i]);
            lemma_holds_inside(head + separator, parts[i], e, parts[i]);
            assert(head + separator + parts[i] + e =~= joined(parts, separator));
        } else {
            law_joined_holds(parts.drop_last(), separator, i);
            lemma_holds_inside(e, head, separator + parts.last(), parts[i]);
            assert(e + head + (separator + parts.last()) =~= joined(parts, separator));
        }
    }
}

/// Joining takes all texts, with one separator between each two.
pub proof fn law_joined_length(parts: Seq<Seq<char>>, separator: Seq<char>, last: Seq<char>)
    ensures
        joined(Seq::empty(), separator).len() == 0,
        joined(seq![last], separator) == last,
        parts.len() > 0 ==> joined(parts.push(last), separator) == joined(parts, separator) + separator + last,
{
    assert(parts.push(last).drop_last() =~= parts);
}

proof fn lemma_char_found(s: Seq<char>, c: char, from: int)
    requires
        0 <= from,
    ensures
        match find_char(s, c, from) {
            Some(i) => from <= i < s.len() && s[i] == c && forall|j: int| from <= j < i ==> #[trigger] s[j] != c,
            None => forall|j: int| from <= j < s.len() ==> #[trigger] s[j] != c,
        },
    decreases s.len() - from,
{
    if from < s.len() && s[from] != c {
        lemma_char_found(s, c, from + 1);
    }
}

proof fn lemma_pieces(s: Seq<char>, separator: char, i: int)
    requires
        0 <= i <= s.len(),
    ensures
        pieces_from(s, separator, i).len() > 0,
        joined(pieces_from(s, separator, i), seq![separator]) == s.skip(i),
        forall|k: int, j: int|
            0 <= k < pieces_from(s, separator, i).len() && 0 <= j < pieces_from(s, separator, i)[k].len() ==> (
            #[trigger] pieces_from(s, separator, i)[k][j]) != separator,
    decreases s.len() - i,
{
    lemma_char_found(s, separator, i);
    let all = pieces_from(s, separator, i);
    match find_char(s, separator, i) {
        None => {
            assert(all =~= seq![s.skip(i)]);
        },
        Some(e) => {
            lemma_pieces(s, separator, e + 1);
            let rest = pieces_from(s, separator, e + 1);
            let first = s.subrange(i, e);
            lemma_joined_first(first, rest, seq![separator]);
            assert(first + seq![separator] + s.skip(e + 1) =~= s.skip(i));
            assert forall|k: int, j: int| 0 <= k < all.len() && 0 <= j < all[k].len() implies (#[trigger] all[k][j])
                != separator by {
                if k > 0 {
                    assert(all[k] == rest[k - 1]);
                    assert(rest[k - 1][j] != separator);
                } else {
                    assert(all[0][j] == s[i + j]);
                }
            }
        },
    }
}

proof fn lemma_joined_first(first: Seq<char>, rest: Seq<Seq<char>>, separator: Seq<char>)
    requires
        rest.len() > 0,
    ensures
        joined(seq![first] + rest, separator) == first + separator + joined(rest, separator),
    decreases rest.len(),
{
    let all = seq![first] + rest;
    if rest.len() == 1 {
        assert(all.drop_last() =~= seq![first]);
        assert(joined(all.drop_last(), separator) == first);
    } else {
        lemma_joined_first(first, rest.drop_last(), separator);
        assert(all.drop_last() =~= seq![first] + rest.drop_last());
        assert(joined(all, separator) =~= first + separator + joined(rest, separator));
    }
}

/// A text is split where the separator stands and nowhere else: the pieces,
/// put together with the separator, give it back, and none holds it.
pub proof fn law_pieces(s: Seq<char>, separator: char)
    ensures
        joined(pieces(s, separator), seq![separator]) == s,
        forall|k: int, j: int|
            0 <= k < pieces(s, separator).len() && 0 <= j < pieces(s, separator)[k].len() ==> (#[trigger] pieces(
                s,
                separator,
            )[k][j]) != separator,
{
    lemma_pieces(s, separator, 0);
    assert(s.skip(0) =~= s);
}

proof fn lemma_content(s: Seq<char>)
    ensures
        0 <= content_end(s) <= s.len(),
        content_end(s) > 0 ==> !is_space(s[content_end(s) - 1]),
        forall|j: int| content_end(s) <= j < s.len() ==> is_space(#[trigger] s[j]),
    decreases s.len(),
{
    if s.len() > 0 && is_space(s.last()) {
        lemma_content(s.drop_last());
        assert forall|j: int| content_end(s) <= j < s.len() implies is_space(#[trigger] s[j]) by {
            if j < s.len() - 1 {
                assert(s.drop_last()[j] == s[j]);
            }
        }
    }
}

proof fn lemma_skip(s: Seq<char>, i: int)
    requires
        0 <= i <= s.len(),
    ensures
        i <= skip_space(s, i) <= s.len(),
        skip_space(s, i) < s.len() ==> !is_space(s[skip_space(s, i)]),
        forall|j: int| i <= j < skip_space(s, i) ==> is_space(#[trigger] s[j]),
    decreases s.len() - i,
{
    if i < s.len() && is_space(s[i]) {
        lemma_skip(s, i + 1);
    }
}

/// Trimming takes white space off both ends and nothing else.
pub proof fn law_trimmed(s: Seq<char>) -> (r: (int, int))
    ensures
        0 <= r.0 <= r.1 <= s.len(),
        trimmed(s) == s.subrange(r.0, r.1),
        forall|j: int| 0 <= j < r.0 || r.1 <= j < s.len() ==> is_space(#[trigger] s[j]),
        trimmed(s).len() > 0 ==> !is_space(trimmed(s)[0]) && !is_space(trimmed(s).last()),
{
    lemma_content(s);
    let e = trimmed_end(s);
    lemma_skip(e, 0);
    let a = skip_space(e, 0);
    let b = content_end(s);
    assert(trimmed(s) =~= s.subrange(a, b));
    assert forall|j: int| 0 <= j < a || b <= j < s.len() implies is_space(#[trigger] s[j]) by {
        if j < a {
            assert(e[j] == s[j]);
        }
    }
    (a, b)
}

proof fn lemma_word(s: Seq<char>, i: int)
    requires
        0 <= i <= s.len(),
    ensures
        i <= word_end(s, i) <= s.len(),
        word_end(s, i) < s.len() ==> is_space(s[word_end(s, i)]),
        forall|j: int| i <= j < word_end(s, i) ==> !is_space(#[trigger] s[j]),
    decreases s.len() - i,
{
    if i < s.len() && !is_space(s[i]) {
        lemma_word(s, i + 1);
    }
}

/// A run of characters that are not white space, with white space or an end on
/// either side.
pub open spec fn is_word(s: Seq<char>, a: int, b: int) -> bool {
    &&& 0 <= a < b <= s.len()
    &&& a == 0 || is_space(s[a - 1])
    &&& b == s.len() || is_space(s[b])
    &&& forall|j: int| a <= j < b ==> !is_space(#[trigger] s[j])
}

proof fn lemma_word_listed(s: Seq<char>, i: int, a: int, b: int)
    requires
        0 <= i <= a,
        is_word(s, a, b),
        i == 0 || is_space(s[i - 1]) || i == s.len() || is_space(s[i]),
    ensures
        words_from(s, i).contains(s.subrange(a, b)),
    decreases s.len() - i,
{
    lemma_skip(s, i);
    let x = skip_space(s, i);
    lemma_word(s, x);
    let y = word_end(s, x);
    if x > a {
        assert(is_space(s[a]));
    }
    let rest = words_from(s, y);
    assert(x < s.len()) by {
        if x == s.len() {
            assert(is_space(s[a]));
        }
    }
    assert(!is_space(s[x]));
    assert(y > x);
    let all = words_from(s, i);
    assert(all =~= seq![s.subrange(x, y)] + rest);
    if x == a {
        if y < b {
            assert(!is_space(s[y]));
        } else if y > b {
            assert(!is_space(s[b]));
        }
        assert(all[0] == s.subrange(a, b));
    } else {
        assert(y <= a) by {
            if y > a {
                assert(!is_space(s[a - 1]));
            }
        }
        lemma_word_listed(s, y, a, b);
        let k = choose|k: int| 0 <= k < rest.len() && rest[k] == s.subrange(a, b);
        assert(all[k + 1] == rest[k]);
    }
}

proof fn lemma_word_is(s: Seq<char>, i: int, k: int) -> (r: (int, int))
    requires
        0 <= i <= s.len(),
        0 <= k < words_from(s, i).len(),
        i == 0 || is_space(s[i - 1]) || i == s.len() || is_space(s[i]),
    ensures
        i <= r.0,
        is_word(s, r.0, r.1),
        words_from(s, i)[k] == s.subrange(r.0, r.1),
    decreases s.len() - i,
{
    lemma_skip(s, i);
    let x = skip_space(s, i);
    lemma_word(s, x);
    let y = word_end(s, x);
    assert(words_from(s, i) =~= seq![s.subrange(x, y)] + words_from(s, y));
    if k == 0 {
        if x > i {
            assert(is_space(s[x - 1]));
        }
        (x, y)
    } else {
        lemma_word_is(s, y, k - 1)
    }
}

/// The words of a text are its runs of characters between white space.
pub proof fn law_words(s: Seq<char>, w: Seq<char>)
    ensures
        words(s).contains(w) <==> exists|a: int, b: int| #[trigger] is_word(s, a, b) && w == s.subrange(a, b),
{
    if words(s).contains(w) {
        let k = choose|k: int| 0 <= k < words(s).len() && words(s)[k] == w;
        let (a, b) = lemma_word_is(s, 0, k);
        assert(is_word(s, a, b));
    }
    if exists|a: int, b: int| #[trigger] is_word(s, a, b) && w == s.subrange(a, b) {
        let (a, b) = choose|a: int, b: int| #[trigger] is_word(s, a, b) && w == s.subrange(a, b);
        lemma_word_listed(s, 0, a, b);
    }
}

/// A line of a text: from the start or behind a line feed up to the next line
/// feed or the end, without a carriage return before a line feed.
pub open spec fn is_line(s: Seq<char>, a: int, b: int) -> bool {
    &&& 0 <= a <= b <= s.len() && a < s.len()
    &&& a == 0 || s[a - 1] == '\n'
    &&& forall|j: int| a <= j < b ==> #[trigger] s[j] != '\n'
    &&& b == s.len() || s[b] == '\n' && (b == a || s[b - 1] != '\r') || b + 1 < s.len() && s[b] == '\r' && s[b + 1] == '\n'
}

proof fn lemma_line_listed(s: Seq<char>, i: int, a: int, b: int)
    requires
        0 <= i <= a,
        is_line(s, a, b),
        i == 0 || s[i - 1] == '\n',
    ensures
        lines_from(s, i).contains(s.subrange(a, b)),
    decreases s.len() - i,
{
    lemma_char_found(s, '\n', i);
    let all = lines_from(s, i);
    if i == a {
        assert(all[0] == line_from(s, i));
        match find_char(s, '\n', i) {
            None => {
                if b < s.len() {
                    if s[b] != '\n' {
                        assert(s[b + 1] != '\n');
                    }
                }
                assert(s.skip(i) =~= s.subrange(a, b));
            },
            Some(e) => {
                if b == s.len() {
                    assert(s[e] != '\n');
                } else if s[b] == '\n' {
                    assert(e <= b);
                    assert(e == b);
                } else {
                    assert(s[b + 1] == '\n');
                    assert(e <= b + 1);
                    if e < b {
                        assert(s[e] != '\n');
                    }
                    assert(e == b + 1);
                }
            },
        }
    } else {
        match find_char(s, '\n', i) {
            None => {
                assert(s[a - 1] != '\n');
            },
            Some(e) => {
                assert(e <= a - 1) by {
                    if e > a - 1 {
                        assert(s[a - 1] != '\n');
                    }
                }
                lemma_line_listed(s, e + 1, a, b);
                let rest = lines_from(s, e + 1);
                let k = choose|k: int| 0 <= k < rest.len() && rest[k] == s.subrange(a, b);
                assert(all[k + 1] == rest[k]);
            },
        }
    }
}

proof fn lemma_line_is(s: Seq<char>, i: int, k: int) -> (r: (int, int))
    requires
        0 <= i <= s.len(),
        0 <= k < lines_from(s, i).len(),
        i == 0 || s[i - 1] == '\n',
    ensures
        i <= r.0,
        is_line(s, r.0, r.1),
        lines_from(s, i)[k] == s.subrange(r.0, r.1),
    decreases s.len() - i,
{
    lemma_char_found(s, '\n', i);
    match find_char(s, '\n', i) {
        None => {
            assert(s.skip(i) =~= s.subrange(i, s.len() as int));
            (i, s.len() as int)
        },
        Some(e) => if k == 0 {
            if e > i && s[e - 1] == '\r' {
                (i, e - 1)
            } else {
                (i, e)
            }
        } else {
            assert(lines_from(s, i)[k] == lines_from(s, e + 1)[k - 1]);
            lemma_line_is(s, e + 1, k - 1)
        },
    }
}

/// The lines of a text are what stands between its line feeds.
pub proof fn law_lines(s: Seq<char>, line: Seq<char>)
    ensures
        lines(s).contains(line) <==> exists|a: int, b: int| #[trigger] is_line(s, a, b) && line == s.subrange(a, b),
{
    if lines(s).contains(line) {
        let k = choose|k: int| 0 <= k < lines(s).len() && lines(s)[k] == line;
        let (a, b) = lemma_line_is(s, 0, k);
        assert(is_line(s, a, b));
    }
    if exists|a: int, b: int| #[trigger] is_line(s, a, b) && line == s.subrange(a, b) {
        let (a, b) = choose|a: int, b: int| #[trigger] is_line(s, a, b) && line == s.subrange(a, b);
        lemma_line_listed(s, 0, a, b);
    }
}

/// The number of line feeds before a position.
pub open spec fn feeds_before(s: Seq<char>, i: int) -> nat
    decreases i,
{
    if i <= 0 {
        0
    } else {
        feeds_before(s, i - 1) + if s[i - 1] == '\n' {
            1nat
        } else {
            0nat
        }
    }
}

proof fn lemma_no_feeds(s: Seq<char>, i: int, e: int)
    requires
        0 <= i <= e <= s.len(),
        forall|j: int| i <= j < e ==> #[trigger] s[j] != '\n',
    ensures
        feeds_before(s, e) == feeds_before(s, i),
    decreases e - i,
{
    if i < e {
        lemma_no_feeds(s, i, e - 1);
        assert(s[e - 1] != '\n');
    }
}

proof fn lemma_line_number(s: Seq<char>, i: int, a: int, b: int)
    requires
        0 <= i <= a,
        is_line(s, a, b),
        i == 0 || s[i - 1] == '\n',
    ensures
        0 <= feeds_before(s, a) - feeds_before(s, i) < lines_from(s, i).len(),
        lines_from(s, i)[feeds_before(s, a) - feeds_before(s, i)] == s.subrange(a, b),
    decreases s.len() - i,
{
    lemma_char_found(s, '\n', i);
    lemma_line_listed(s, i, a, b);
    if i < a {
        match find_char(s, '\n', i) {
            None => {
                assert(s[a - 1] != '\n');
            },
            Some(e) => {
                assert(e <= a - 1) by {
                    if e > a - 1 {
                        assert(s[a - 1] != '\n');
                    }
                }
                lemma_no_feeds(s, i, e);
                lemma_line_number(s, e + 1, a, b);
                let k = feeds_before(s, a) - feeds_before(s, e + 1);
                assert(lines_from(s, i)[k + 1] == lines_from(s, e + 1)[k]);
            },
        }
    } else {
        lemma_first_line(s, a, b);
    }
}

proof fn lemma_first_line(s: Seq<char>, a: int, b: int)
    requires
        is_line(s, a, b),
    ensures
        lines_from(s, a).len() > 0,
        lines_from(s, a)[0] == s.subrange(a, b),
{
    lemma_char_found(s, '\n', a);
    match find_char(s, '\n', a) {
        None => {
            if b < s.len() {
                if s[b] != '\n' {
                    assert(s[b + 1] != '\n');
                }
            }
            assert(s.skip(a) =~= s.subrange(a, b));
        },
        Some(e) => {
            if b == s.len() {
                assert(s[e] != '\n');
            } else if s[b] == '\n' {
                assert(e == b);
            } else {
                assert(s[b + 1] == '\n');
                if e < b {
                    assert(s[e] != '\n');
                }
                assert(e == b + 1);
            }
        },
    }
}

/// Lines are numbered by the line feeds before them.
pub proof fn law_line_number(s: Seq<char>, a: int, b: int)
    requires
        is_line(s, a, b),
    ensures
        feeds_before(s, a) < lines(s).len(),
        lines(s)[feeds_before(s, a) as int] == s.subrange(a, b),
{
    lemma_line_number(s, 0, a, b);
}

/// No part holds the character.
pub open spec fn are_free_of(parts: Seq<Seq<char>>, c: char) -> bool {
    forall|k: int| 0 <= k < parts.len() ==> !(#[trigger] parts[k]).contains(c)
}

proof fn lemma_joined_split(parts: Seq<Seq<char>>, c: char)
    requires
        parts.len() > 1,
    ensures
        joined(parts, seq![c]) == parts[0] + seq![c] + joined(parts.skip(1), seq![c]),
{
    assert(parts =~= seq![parts[0]] + parts.skip(1));
    lemma_joined_first(parts[0], parts.skip(1), seq![c]);
}

/// There is one way to split a text at a character.
pub proof fn law_split_unique(a: Seq<Seq<char>>, b: Seq<Seq<char>>, c: char)
    requires
        a.len() > 0,
        b.len() > 0,
        are_free_of(a, c),
        are_free_of(b, c),
        joined(a, seq![c]) == joined(b, seq![c]),
    ensures
        a == b,
    decreases a.len(),
{
    let s = joined(a, seq![c]);
    assert(!a[0].contains(c) && !b[0].contains(c));
    if a.len() > 1 {
        lemma_joined_split(a, c);
        assert(s[a[0].len() as int] == c);
    } else {
        assert(s == a[0]);
    }
    if b.len() > 1 {
        lemma_joined_split(b, c);
        assert(s[b[0].len() as int] == c);
    } else {
        assert(s == b[0]);
    }
    assert(a[0].len() == b[0].len()) by {
        if a[0].len() < b[0].len() {
            assert(a.len() > 1);
            assert(s[a[0].len() as int] == b[0][a[0].len() as int]);
            assert(b[0].contains(c));
        }
        if b[0].len() < a[0].len() {
            assert(b.len() > 1);
            assert(s[b[0].len() as int] == a[0][b[0].len() as int]);
            assert(a[0].contains(c));
        }
    }
    assert(a[0] =~= s.take(a[0].len() as int));
    assert(b[0] =~= s.take(a[0].len() as int));
    if a.len() > 1 && b.len() > 1 {
        let n = a[0].len() + 1;
        assert(joined(a.skip(1), seq![c]) =~= s.skip(n as int));
        assert(joined(b.skip(1), seq![c]) =~= s.skip(n as int));
        assert forall|k: int| 0 <= k < a.skip(1).len() implies !(#[trigger] a.skip(1)[k]).contains(c) by {
            assert(!a[k + 1].contains(c));
        }
        assert forall|k: int| 0 <= k < b.skip(1).len() implies !(#[trigger] b.skip(1)[k]).contains(c) by {
            assert(!b[k + 1].contains(c));
        }
        law_split_unique(a.skip(1), b.skip(1), c);
        assert(a =~= seq![a[0]] + a.skip(1));
        assert(b =~= seq![b[0]] + b.skip(1));
    } else {
        if a.len() > 1 {
            assert(s.len() > a[0].len());
        }
        if b.len() > 1 {
            assert(s.len() > b[0].len());
        }
        assert(a =~= b);
    }
}

/// Splitting what was joined gives the parts back.
pub proof fn law_pieces_of_joined(parts: Seq<Seq<char>>, c: char)
    requires
        parts.len() > 0,
        are_free_of(parts, c),
    ensures
        pieces(joined(parts, seq![c]), c) == parts,
{
    let s = joined(parts, seq![c]);
    law_pieces(s, c);
    lemma_pieces(s, c, 0);
    assert forall|k: int| 0 <= k < pieces(s, c).len() implies !(#[trigger] pieces(s, c)[k]).contains(c) by {
        if pieces(s, c)[k].contains(c) {
            let j = choose|j: int| 0 <= j < pieces(s, c)[k].len() && pieces(s, c)[k][j] == c;
            assert(pieces(s, c)[k][j] != c);
        }
    }
    law_split_unique(parts, pieces(s, c), c);
}

} // verus!
