//! Line- and token-level operations on text.

use vstd::prelude::*;
use vstd::std_specs::iter::IteratorSpec;

use crate::text::{
    after_space, alphanumeric, char_from, find_char, is_space, lemma_spans, occurs_at, skip_space, space, stands_at,
    string_of, utf8_length,
};

verus! {

/// The position behind the last character that is not white space.
pub open spec fn content_end(s: Seq<char>) -> int
    decreases s.len(),
{
    if s.len() == 0 {
        0
    } else if is_space(s.last()) {
        content_end(s.drop_last())
    } else {
        s.len() as int
    }
}

pub proof fn lemma_content_end(s: Seq<char>)
    ensures
        0 <= content_end(s) <= s.len(),
    decreases s.len(),
{
    if s.len() > 0 {
        lemma_content_end(s.drop_last());
    }
}

/// A text without leading white space.
pub open spec fn trimmed_start(s: Seq<char>) -> Seq<char> {
    s.skip(skip_space(s, 0))
}

/// A text without trailing white space.
pub open spec fn trimmed_end(s: Seq<char>) -> Seq<char> {
    s.take(content_end(s))
}

/// A text without white space at either end.
pub open spec fn trimmed(s: Seq<char>) -> Seq<char> {
    trimmed_start(trimmed_end(s))
}

/// A text with a character that is not white space is not blank.
pub proof fn lemma_not_blank(s: Seq<char>, i: int)
    requires
        0 <= i < s.len(),
        !is_space(s[i]),
    ensures
        trimmed(s).len() > 0,
{
    lemma_content_reaches(s, i);
    let t = trimmed_end(s);
    assert(t[i] == s[i]);
    lemma_space_ends(t, i, 0);
}

/// Trimming leaves an end alone that neither starts nor stops with white space.
pub proof fn lemma_trimmed_before(head: Seq<char>, tail: Seq<char>) -> (kept: Seq<char>)
    requires
        tail.len() > 0,
        !is_space(tail[0]),
        !is_space(tail.last()),
    ensures
        trimmed(head + tail) == kept + tail,
{
    let s = head + tail;
    assert(s.last() == tail.last());
    assert(trimmed_end(s) =~= s);
    assert(s[head.len() as int] == tail[0]);
    lemma_space_ends(s, head.len() as int, 0);
    let k = skip_space(s, 0);
    assert(s.skip(k) =~= head.skip(k) + tail);
    head.skip(k)
}

/// Trimming a trimmed text changes nothing.
pub proof fn lemma_trimmed_again(s: Seq<char>)
    ensures
        trimmed(trimmed(s)) == trimmed(s),
{
    let e = trimmed_end(s);
    lemma_content_end(s);
    lemma_content_last(s);
    let k = skip_space(e, 0);
    lemma_spans(e, 0);
    lemma_skip_ends(e, 0);
    let t = trimmed(s);
    if t.len() > 0 {
        assert(t[0] == e[k]);
        assert(t.last() == e.last());
        assert(e.last() == s[content_end(s) - 1]);
        assert(content_end(t) == t.len());
        assert(trimmed_end(t) =~= t);
        assert(skip_space(t, 0) == 0);
        assert(t.skip(0) =~= t);
    } else {
        assert(trimmed_end(t) =~= t);
        assert(trimmed(t) =~= t);
    }
}

/// Trimming only takes away.
pub proof fn lemma_trimmed_shorter(s: Seq<char>)
    ensures
        trimmed(s).len() <= s.len(),
{
    lemma_content_end(s);
    lemma_skip_ends(trimmed_end(s), 0);
}

proof fn lemma_content_last(s: Seq<char>)
    ensures
        content_end(s) > 0 ==> !is_space(s[content_end(s) - 1]),
    decreases s.len(),
{
    if s.len() > 0 && is_space(s.last()) {
        lemma_content_last(s.drop_last());
        lemma_content_end(s.drop_last());
    }
}

proof fn lemma_skip_ends(s: Seq<char>, i: int)
    requires
        0 <= i <= s.len(),
    ensures
        i <= skip_space(s, i) <= s.len(),
        skip_space(s, i) < s.len() ==> !is_space(s[skip_space(s, i)]),
    decreases s.len() - i,
{
    if i < s.len() && is_space(s[i]) {
        lemma_skip_ends(s, i + 1);
    }
}

proof fn lemma_content_reaches(s: Seq<char>, i: int)
    requires
        0 <= i < s.len(),
        !is_space(s[i]),
    ensures
        i < content_end(s) <= s.len(),
    decreases s.len(),
{
    lemma_content_end(s);
    if is_space(s.last()) {
        assert(s.drop_last()[i] == s[i]);
        lemma_content_reaches(s.drop_last(), i);
    }
}

proof fn lemma_space_ends(s: Seq<char>, i: int, from: int)
    requires
        0 <= from <= i < s.len(),
        !is_space(s[i]),
    ensures
        from <= skip_space(s, from) <= i,
    decreases i - from,
{
    if is_space(s[from]) {
        lemma_space_ends(s, i, from + 1);
    }
}

pub fn trim_start(s: &[char]) -> (r: &[char])
    ensures
        r@ == trimmed_start(s@),
{
    let a: usize = after_space(s, 0);
    let r = vstd::slice::slice_subrange(s, a, s.len());
    assert(r@ =~= trimmed_start(s@));
    r
}

pub fn trim_end(s: &[char]) -> (r: &[char])
    ensures
        r@ == trimmed_end(s@),
{
    let mut n: usize = s.len();
    assert(s@.take(n as int) =~= s@);
    while n > 0 && space(s[n - 1])
        invariant
            n <= s@.len(),
            content_end(s@) == content_end(s@.take(n as int)),
        decreases n,
    {
        assert(s@.take(n as int).drop_last() =~= s@.take(n - 1));
        n = n - 1;
    }
    let r = vstd::slice::slice_subrange(s, 0, n);
    assert(r@ =~= s@.take(n as int));
    r
}

pub fn trim(s: &[char]) -> (r: &[char])
    ensures
        r@ == trimmed(s@),
{
    trim_start(trim_end(s))
}

/// A text starts with another.
pub open spec fn begins(s: Seq<char>, prefix: Seq<char>) -> bool {
    occurs_at(s, prefix, 0)
}

/// A text ends with another.
pub open spec fn ends(s: Seq<char>, suffix: Seq<char>) -> bool {
    suffix.len() <= s.len() && occurs_at(s, suffix, s.len() - suffix.len())
}

pub fn starts_with(s: &[char], prefix: &str) -> (r: bool)
    ensures
        r == begins(s@, prefix@),
{
    stands_at(s, prefix, 0)
}

pub fn ends_with(s: &[char], suffix: &str) -> (r: bool)
    ensures
        r == ends(s@, suffix@),
{
    let n: usize = count_chars(suffix);
    let len: usize = s.len();
    n <= len && stands_at(s, suffix, len - n)
}

/// The number of characters.
pub fn count_chars(s: &str) -> (r: usize)
    ensures
        r == s@.len(),
{
    crate::text::chars_of(s).len()
}

/// The first line from `i` on, without its line ending.
pub open spec fn line_from(s: Seq<char>, i: int) -> Seq<char> {
    match find_char(s, '\n', i) {
        None => s.skip(i),
        Some(e) => if e > i && s[e - 1] == '\r' {
            s.subrange(i, e - 1)
        } else {
            s.subrange(i, e)
        },
    }
}

/// The lines from `i` on (`str::lines`): split at line feeds, a carriage
/// return before one dropped, no empty line after a final one.
pub open spec fn lines_from(s: Seq<char>, i: int) -> Seq<Seq<char>>
    decreases s.len() - i,
{
    if i < 0 || i >= s.len() {
        Seq::empty()
    } else {
        let rest = match find_char(s, '\n', i) {
            None => Seq::empty(),
            Some(e) => if e < i || e >= s.len() {
                Seq::empty()
            } else {
                lines_from(s, e + 1)
            },
        };
        seq![line_from(s, i)] + rest
    }
}

pub open spec fn lines(s: Seq<char>) -> Seq<Seq<char>> {
    lines_from(s, 0)
}

/// What a list of character lists holds.
pub open spec fn char_lists(v: Seq<Vec<char>>) -> Seq<Seq<char>> {
    v.map_values(|c: Vec<char>| c@)
}

pub fn copy_chars(s: &[char]) -> (r: Vec<char>)
    ensures
        r@ == s@,
{
    vstd::slice::slice_to_vec(s)
}

pub fn lines_of(s: &[char]) -> (r: Vec<Vec<char>>)
    ensures
        char_lists(r@) == lines(s@),
{
    let mut r: Vec<Vec<char>> = Vec::new();
    let n: usize = s.len();
    let mut i: usize = 0;
    assert(char_lists(r@) + lines_from(s@, 0) =~= lines(s@));
    while i < n
        invariant
            i <= n == s@.len(),
            char_lists(r@) + lines_from(s@, i as int) == lines(s@),
        decreases n - i,
    {
        let ghost r0 = r@;
        let ghost i0 = i as int;
        let (end, next) = match char_from(s, '\n', i) {
            None => (n, n),
            Some(e) => if e > i && s[e - 1] == '\r' {
                (e - 1, e + 1)
            } else {
                (e, e + 1)
            },
        };
        let line = copy_chars(vstd::slice::slice_subrange(s, i, end));
        assert(line@ =~= line_from(s@, i as int));
        r.push(line);
        proof {
            assert(char_lists(r@) =~= char_lists(r0).push(line@));
            assert(char_lists(r0) + lines_from(s@, i0) =~= char_lists(r@) + lines_from(s@, next as int));
        }
        i = next;
    }
    assert(char_lists(r@) + lines_from(s@, i as int) =~= char_lists(r@));
    r
}

/// The piece between the first and the second separator (`split(c).nth(1)`).
pub open spec fn second_piece(s: Seq<char>, separator: char) -> Option<Seq<char>> {
    match find_char(s, separator, 0) {
        None => None,
        Some(i) => match find_char(s, separator, i + 1) {
            None => Some(s.skip(i + 1)),
            Some(j) => Some(s.subrange(i + 1, j)),
        },
    }
}

/// What an optional string holds.
pub open spec fn opt_text(s: Option<String>) -> Option<Seq<char>> {
    match s {
        Some(t) => Some(t@),
        None => None,
    }
}

pub fn piece_between(s: &[char], separator: char) -> (r: Option<String>)
    ensures
        opt_text(r) == second_piece(s@, separator),
{
    match char_from(s, separator, 0) {
        None => None,
        Some(i) => {
            let n: usize = s.len();
            let end: usize = match char_from(s, separator, i + 1) {
                None => n,
                Some(j) => j,
            };
            let piece = string_of(vstd::slice::slice_subrange(s, i + 1, end));
            assert(piece@ == s@.subrange(i + 1, end as int));
            assert(s@.skip(i + 1) =~= s@.subrange(i + 1, n as int));
            Some(piece)
        },
    }
}

/// The first position from `i` on whose character is not in the set.
pub open spec fn skip_set(s: Seq<char>, set: Seq<char>, i: int) -> int
    decreases s.len() - i,
{
    if 0 <= i < s.len() && set.contains(s[i]) {
        skip_set(s, set, i + 1)
    } else {
        i
    }
}

/// The position behind the last character that is not in the set.
pub open spec fn set_end(s: Seq<char>, set: Seq<char>) -> int
    decreases s.len(),
{
    if s.len() == 0 {
        0
    } else if set.contains(s.last()) {
        set_end(s.drop_last(), set)
    } else {
        s.len() as int
    }
}

/// A text without characters of the set at its end.
pub open spec fn stripped_end(s: Seq<char>, set: Seq<char>) -> Seq<char> {
    s.take(set_end(s, set))
}

/// A text without characters of the set at either end.
pub open spec fn stripped(s: Seq<char>, set: Seq<char>) -> Seq<char> {
    let t = stripped_end(s, set);
    t.skip(skip_set(t, set, 0))
}

/// The set, given as a text, holds the character.
pub fn set_has(set: &str, c: char) -> (r: bool)
    ensures
        r == set@.contains(c),
{
    let mut rest = set.chars();
    let ghost mut k: int = 0;
    loop
        invariant
            rest.obeys_prophetic_iter_laws(),
            0 <= k <= set@.len(),
            rest.remaining() == set@.skip(k),
            forall|j: int| 0 <= j < k ==> set@[j] != c,
        decreases set@.len() - k,
    {
        match rest.next() {
            None => {
                return false;
            },
            Some(d) => {
                if c == d {
                    assert(set@[k] == c);
                    return true;
                }
                proof {
                    assert(set@.skip(k).drop_first() =~= set@.skip(k + 1));
                    k = k + 1;
                }
            },
        }
    }
}

pub fn strip_end<'a>(s: &'a [char], set: &str) -> (r: &'a [char])
    ensures
        r@ == stripped_end(s@, set@),
{
    let mut n: usize = s.len();
    assert(s@.take(n as int) =~= s@);
    while n > 0 && set_has(set, s[n - 1])
        invariant
            n <= s@.len(),
            set_end(s@, set@) == set_end(s@.take(n as int), set@),
        decreases n,
    {
        assert(s@.take(n as int).drop_last() =~= s@.take(n - 1));
        n = n - 1;
    }
    let r = vstd::slice::slice_subrange(s, 0, n);
    assert(r@ =~= s@.take(n as int));
    r
}

pub fn strip<'a>(s: &'a [char], set: &str) -> (r: &'a [char])
    ensures
        r@ == stripped(s@, set@),
{
    let t = strip_end(s, set);
    let mut i: usize = 0;
    while i < t.len() && set_has(set, t[i])
        invariant
            i <= t@.len(),
            skip_set(t@, set@, 0) == skip_set(t@, set@, i as int),
        decreases t.len() - i,
    {
        i = i + 1;
    }
    let r = vstd::slice::slice_subrange(t, i, t.len());
    assert(r@ =~= t@.skip(i as int));
    r
}

/// A character that can stand inside an identifier.
pub open spec fn ident_char(c: char) -> bool {
    alphanumeric(c) || c == '_'
}

pub fn is_ident_char(c: char) -> (r: bool)
    ensures
        r == ident_char(c),
{
    c.is_alphanumeric() || c == '_'
}

/// No identifier character stands just before `i`.
pub open spec fn free_before(s: Seq<char>, i: int) -> bool {
    i <= 0 || i > s.len() || !ident_char(s[i - 1])
}

/// No identifier character stands at `i`.
pub open spec fn free_at(s: Seq<char>, i: int) -> bool {
    i < 0 || i >= s.len() || !ident_char(s[i])
}

/// The word stands at `i` as a whole identifier.
pub open spec fn word_at(s: Seq<char>, word: Seq<char>, i: int) -> bool {
    occurs_at(s, word, i) && free_before(s, i) && free_at(s, i + word.len())
}

pub fn is_free_before(s: &[char], i: usize) -> (r: bool)
    ensures
        r == free_before(s@, i as int),
{
    i == 0 || i > s.len() || !is_ident_char(s[i - 1])
}

pub fn is_free_at(s: &[char], i: usize) -> (r: bool)
    ensures
        r == free_at(s@, i as int),
{
    i >= s.len() || !is_ident_char(s[i])
}

pub fn stands_as_word(s: &[char], word: &str, i: usize) -> (r: bool)
    ensures
        r == word_at(s@, word@, i as int),
{
    if !stands_at(s, word, i) {
        return false;
    }
    let n: usize = s.len();
    let end: usize = i + count_chars(word);
    is_free_before(s, i) && is_free_at(s, end)
}

/// The first position at or after `from` where the word stands as a whole identifier.
pub open spec fn find_word(s: Seq<char>, word: Seq<char>, from: int) -> Option<int>
    decreases s.len() + 1 - from,
{
    if from < 0 || from > s.len() {
        None
    } else if word_at(s, word, from) {
        Some(from)
    } else {
        find_word(s, word, from + 1)
    }
}

pub fn word_from(s: &[char], word: &str, from: usize) -> (r: Option<usize>)
    ensures
        match r {
            Some(i) => find_word(s@, word@, from as int) == Some(i as int),
            None => find_word(s@, word@, from as int) is None,
        },
        r matches Some(i) ==> from <= i && i + word@.len() <= s@.len() && word_at(s@, word@, i as int),
{
    let n: usize = s.len();
    let mut i: usize = from;
    while i <= n
        invariant
            from <= i,
            n == s@.len(),
            i <= n || i == from || i == n + 1,
            find_word(s@, word@, from as int) == find_word(s@, word@, i as int),
        decreases n + 1 - i,
    {
        if stands_as_word(s, word, i) {
            return Some(i);
        }
        if i == n {
            assert(find_word(s@, word@, n + 1) is None);
            return None;
        }
        i = i + 1;
    }
    None
}

/// The position where `n` bytes of UTF-8 have passed, if a character starts or the text ends there.
pub open spec fn byte_index(s: Seq<char>, n: nat) -> Option<int>
    decreases s.len(),
{
    if utf8_length(s) == n {
        Some(s.len() as int)
    } else if s.len() == 0 || utf8_length(s) < n {
        None
    } else {
        byte_index(s.drop_last(), n)
    }
}

/// The text from byte `n` on; nothing when no character starts there.
pub open spec fn drop_bytes(s: Seq<char>, n: nat) -> Seq<char> {
    match byte_index(s, n) {
        Some(i) => s.skip(i),
        None => Seq::empty(),
    }
}

proof fn lemma_byte_index(s: Seq<char>, n: nat, i: int)
    requires
        0 <= i <= s.len(),
        utf8_length(s.take(i)) >= n,
        i > 0 ==> utf8_length(s.take(i - 1)) < n,
    ensures
        byte_index(s, n) == if utf8_length(s.take(i)) == n {
            Some(i)
        } else {
            None
        },
    decreases s.len(),
{
    if i == s.len() {
        assert(s.take(i) =~= s);
        if s.len() > 0 && utf8_length(s) > n {
            assert(s.drop_last() =~= s.take(i - 1));
            lemma_byte_index_small(s.drop_last(), n);
        }
    } else {
        lemma_prefix_shorter(s, i, s.len() as int);
        assert(s.take(s.len() as int) =~= s);
        let t = s.drop_last();
        assert(t.take(i) =~= s.take(i));
        if i > 0 {
            assert(t.take(i - 1) =~= s.take(i - 1));
        }
        lemma_byte_index(t, n, i);
    }
}

proof fn lemma_byte_index_small(s: Seq<char>, n: nat)
    requires
        utf8_length(s) < n,
    ensures
        byte_index(s, n) is None,
{
}

proof fn lemma_prefix_shorter(s: Seq<char>, i: int, j: int)
    requires
        0 <= i < j <= s.len(),
    ensures
        utf8_length(s.take(i)) < utf8_length(s.take(j)),
    decreases j - i,
{
    assert(s.take(j).drop_last() =~= s.take(j - 1));
    if i < j - 1 {
        lemma_prefix_shorter(s, i, j - 1);
    }
}

/// The text from byte `n` on.
pub fn from_byte(s: &[char], n: u128) -> (r: &[char])
    ensures
        r@ == drop_bytes(s@, n as nat),
{
    let len: usize = s.len();
    let mut passed: u128 = 0;
    let mut i: usize = 0;
    while i < len && passed < n
        invariant
            i <= len == s@.len(),
            passed == utf8_length(s@.take(i as int)),
            passed <= 4 * i,
            i > 0 ==> utf8_length(s@.take(i - 1)) < n,
        decreases len - i,
    {
        assert(s@.take(i + 1).drop_last() =~= s@.take(i as int));
        let c: u32 = s[i] as u32;
        let width: u128 = if c < 0x80 {
            1
        } else if c < 0x800 {
            2
        } else if c < 0x1_0000 {
            3
        } else {
            4
        };
        passed = passed + width;
        i = i + 1;
    }
    proof {
        if passed >= n {
            lemma_byte_index(s@, n as nat, i as int);
        } else {
            assert(s@.take(i as int) =~= s@);
        }
    }
    if passed == n {
        let r = vstd::slice::slice_subrange(s, i, len);
        assert(r@ =~= s@.skip(i as int));
        r
    } else {
        let r = vstd::slice::slice_subrange(s, 0, 0);
        assert(r@ =~= Seq::empty());
        r
    }
}

/// The pieces from `i` on between separators (`str::split`).
pub open spec fn pieces_from(s: Seq<char>, separator: char, i: int) -> Seq<Seq<char>>
    decreases s.len() + 1 - i,
{
    if i < 0 || i > s.len() {
        Seq::empty()
    } else {
        match find_char(s, separator, i) {
            None => seq![s.skip(i)],
            Some(e) => if e < i || e >= s.len() {
                seq![s.skip(i)]
            } else {
                seq![s.subrange(i, e)] + pieces_from(s, separator, e + 1)
            },
        }
    }
}

pub open spec fn pieces(s: Seq<char>, separator: char) -> Seq<Seq<char>> {
    pieces_from(s, separator, 0)
}

pub fn split_at_char(s: &[char], separator: char) -> (r: Vec<String>)
    ensures
        crate::text::texts(r@) == pieces(s@, separator),
{
    let mut r: Vec<String> = Vec::new();
    let n: usize = s.len();
    let mut i: usize = 0;
    assert(crate::text::texts(r@) + pieces_from(s@, separator, 0) =~= pieces(s@, separator));
    loop
        invariant
            i <= n == s@.len(),
            crate::text::texts(r@) + pieces_from(s@, separator, i as int) == pieces(s@, separator),
        decreases n - i,
    {
        let ghost r0 = r@;
        match char_from(s, separator, i) {
            None => {
                let piece = string_of(vstd::slice::slice_subrange(s, i, n));
                assert(piece@ =~= s@.skip(i as int));
                r.push(piece);
                assert(crate::text::texts(r@) =~= crate::text::texts(r0) + pieces_from(s@, separator, i as int));
                return r;
            },
            Some(e) => {
                let piece = string_of(vstd::slice::slice_subrange(s, i, e));
                r.push(piece);
                proof {
                    assert(crate::text::texts(r@) =~= crate::text::texts(r0).push(piece@));
                    assert(crate::text::texts(r0) + pieces_from(s@, separator, i as int) =~= crate::text::texts(r@)
                        + pieces_from(s@, separator, e + 1));
                }
                i = e + 1;
            },
        }
    }
}

/// A text without repetitions of a prefix.
pub open spec fn without_prefix(s: Seq<char>, prefix: Seq<char>) -> Seq<char>
    decreases s.len(),
{
    if prefix.len() > 0 && begins(s, prefix) {
        without_prefix(s.skip(prefix.len() as int), prefix)
    } else {
        s
    }
}

/// A text without repetitions of a suffix.
pub open spec fn without_suffix(s: Seq<char>, suffix: Seq<char>) -> Seq<char>
    decreases s.len(),
{
    if suffix.len() > 0 && ends(s, suffix) {
        without_suffix(s.take(s.len() - suffix.len()), suffix)
    } else {
        s
    }
}

pub fn drop_prefix<'a>(s: &'a [char], prefix: &str) -> (r: &'a [char])
    ensures
        r@ == without_prefix(s@, prefix@),
{
    let n: usize = count_chars(prefix);
    let len: usize = s.len();
    let mut i: usize = 0;
    assert(s@.skip(0) =~= s@);
    while n > 0 && stands_at(s, prefix, i)
        invariant
            i <= len == s@.len(),
            n == prefix@.len(),
            without_prefix(s@, prefix@) == without_prefix(s@.skip(i as int), prefix@),
        decreases len - i,
    {
        proof {
            assert(s@.skip(i as int).subrange(0, n as int) =~= s@.subrange(i as int, i + n));
            assert(begins(s@.skip(i as int), prefix@));
            assert(s@.skip(i as int).skip(n as int) =~= s@.skip(i + n));
        }
        i = i + n;
    }
    proof {
        if n > 0 && begins(s@.skip(i as int), prefix@) {
            assert(s@.skip(i as int).subrange(0, n as int) =~= s@.subrange(i as int, i + n));
            assert(occurs_at(s@, prefix@, i as int));
        }
    }
    let r = vstd::slice::slice_subrange(s, i, len);
    assert(r@ =~= s@.skip(i as int));
    r
}

pub fn drop_suffix<'a>(s: &'a [char], suffix: &str) -> (r: &'a [char])
    ensures
        r@ == without_suffix(s@, suffix@),
{
    let n: usize = count_chars(suffix);
    let mut end: usize = s.len();
    assert(s@.take(end as int) =~= s@);
    while n > 0 && n <= end && stands_at(s, suffix, end - n)
        invariant
            end <= s@.len(),
            n == suffix@.len(),
            without_suffix(s@, suffix@) == without_suffix(s@.take(end as int), suffix@),
        decreases end,
    {
        proof {
            let t = s@.take(end as int);
            assert(t.subrange(end - n, end as int) =~= s@.subrange(end - n, end as int));
            assert(ends(t, suffix@));
            assert(t.take(t.len() - n) =~= s@.take(end - n));
        }
        end = end - n;
    }
    proof {
        let t = s@.take(end as int);
        if n > 0 && ends(t, suffix@) {
            assert(t.subrange(end - n, end as int) =~= s@.subrange(end - n, end as int));
        }
    }
    let r = vstd::slice::slice_subrange(s, 0, end);
    assert(r@ =~= s@.take(end as int));
    r
}

} // verus!
