//! Text as sequences of characters: comparison, search and assembly.

use vstd::prelude::*;
use vstd::std_specs::iter::IteratorSpec;

verus! {

/// Lexicographic order by code point.
pub open spec fn lex_le(a: Seq<char>, b: Seq<char>) -> bool
    decreases a.len(),
{
    if a.len() == 0 {
        true
    } else if b.len() == 0 {
        false
    } else if a[0] != b[0] {
        a[0] < b[0]
    } else {
        lex_le(a.skip(1), b.skip(1))
    }
}

pub proof fn lemma_lex_total(a: Seq<char>, b: Seq<char>)
    ensures
        lex_le(a, b) || lex_le(b, a),
        lex_le(a, b) && lex_le(b, a) ==> a == b,
        a == b ==> lex_le(a, b),
    decreases a.len(),
{
    if a.len() > 0 && b.len() > 0 && a[0] == b[0] {
        lemma_lex_total(a.skip(1), b.skip(1));
        if a.skip(1) == b.skip(1) {
            assert(a =~= seq![a[0]] + a.skip(1));
            assert(b =~= seq![b[0]] + b.skip(1));
        }
    } else if a.len() == 0 && b.len() == 0 {
        assert(a =~= b);
    }
}

pub proof fn lemma_lex_transitive(a: Seq<char>, b: Seq<char>, c: Seq<char>)
    requires
        lex_le(a, b),
        lex_le(b, c),
    ensures
        lex_le(a, c),
    decreases a.len(),
{
    if a.len() > 0 && b.len() > 0 && c.len() > 0 && a[0] == b[0] && b[0] == c[0] {
        lemma_lex_transitive(a.skip(1), b.skip(1), c.skip(1));
    }
}

/// What a list of strings holds.
pub open spec fn texts(v: Seq<String>) -> Seq<Seq<char>> {
    v.map_values(|s: String| s@)
}

/// Appending a character puts it at the end of the text (`String::push`).
pub assume_specification[ String::push ](s: &mut String, ch: char)
    ensures
        final(s)@ == old(s)@.push(ch),
;

/// The characters of a string.
pub fn chars_of(s: &str) -> (r: Vec<char>)
    ensures
        r@ == s@,
{
    let mut r: Vec<char> = Vec::new();
    let items = s.chars();
    let ghost all = items.remaining();
    for c in it: items
        invariant
            it.seq() == all,
            r@ == all.take(it.index()),
    {
        r.push(c);
        assert(r@ =~= all.take(it.index() + 1));
    }
    assert(r@ =~= all);
    r
}

/// The string with the given characters.
pub fn string_of(chars: &[char]) -> (r: String)
    ensures
        r@ == chars@,
{
    let mut r = String::new();
    let mut i: usize = 0;
    while i < chars.len()
        invariant
            i <= chars.len(),
            r@ == chars@.take(i as int),
        decreases chars.len() - i,
    {
        r.push(chars[i]);
        i = i + 1;
        assert(r@ =~= chars@.take(i as int));
    }
    assert(r@ =~= chars@);
    r
}

/// The two texts are equal.
pub fn same(a: &str, b: &str) -> (r: bool)
    ensures
        r == (a@ == b@),
{
    let mut left = a.chars();
    let mut right = b.chars();
    let ghost mut k: int = 0;
    loop
        invariant
            0 <= k <= a@.len(),
            k <= b@.len(),
            left.obeys_prophetic_iter_laws(),
            right.obeys_prophetic_iter_laws(),
            left.remaining() == a@.skip(k),
            right.remaining() == b@.skip(k),
            a@.take(k) == b@.take(k),
        decreases a@.len() - k,
    {
        let x = left.next();
        let y = right.next();
        match (x, y) {
            (Some(c), Some(d)) => {
                if c != d {
                    assert(a@[k] != b@[k]);
                    return false;
                }
                proof {
                    assert(a@.skip(k).drop_first() =~= a@.skip(k + 1));
                    assert(b@.skip(k).drop_first() =~= b@.skip(k + 1));
                    assert(a@.take(k + 1) =~= a@.take(k).push(a@[k]));
                    assert(b@.take(k + 1) =~= b@.take(k).push(b@[k]));
                    k = k + 1;
                }
            },
            (None, None) => {
                assert(a@.take(k) =~= a@);
                assert(b@.take(k) =~= b@);
                return true;
            },
            _ => {
                return false;
            },
        }
    }
}

/// Decides the lexicographic order.
pub fn at_most(a: &str, b: &str) -> (r: bool)
    ensures
        r == lex_le(a@, b@),
{
    let mut left = a.chars();
    let mut right = b.chars();
    let ghost mut k: int = 0;
    assert(a@.skip(0) =~= a@);
    assert(b@.skip(0) =~= b@);
    loop
        invariant
            0 <= k <= a@.len(),
            k <= b@.len(),
            left.obeys_prophetic_iter_laws(),
            right.obeys_prophetic_iter_laws(),
            left.remaining() == a@.skip(k),
            right.remaining() == b@.skip(k),
            lex_le(a@, b@) == lex_le(a@.skip(k), b@.skip(k)),
        decreases a@.len() - k,
    {
        match left.next() {
            None => {
                return true;
            },
            Some(c) => match right.next() {
                None => {
                    return false;
                },
                Some(d) => {
                    if c != d {
                        return c < d;
                    }
                    proof {
                        assert(a@.skip(k).drop_first() =~= a@.skip(k + 1));
                        assert(b@.skip(k).drop_first() =~= b@.skip(k + 1));
                        assert(a@.skip(k).skip(1) =~= a@.skip(k + 1));
                        assert(b@.skip(k).skip(1) =~= b@.skip(k + 1));
                        k = k + 1;
                    }
                },
            },
        }
    }
}

/// The first position of a text in a list.
pub open spec fn first_index(list: Seq<Seq<char>>, text: Seq<char>) -> Option<int>
    decreases list.len(),
{
    if list.len() == 0 {
        None
    } else {
        match first_index(list.drop_last(), text) {
            Some(i) => Some(i),
            None => if list.last() == text {
                Some(list.len() - 1)
            } else {
                None
            },
        }
    }
}

/// The first position holds the text, and nothing before it does.
pub proof fn lemma_first_index(list: Seq<Seq<char>>, text: Seq<char>)
    ensures
        match first_index(list, text) {
            Some(i) => 0 <= i < list.len() && list[i] == text && forall|j: int| 0 <= j < i ==> list[j] != text,
            None => forall|j: int| 0 <= j < list.len() ==> list[j] != text,
        },
    decreases list.len(),
{
    if list.len() > 0 {
        let front = list.drop_last();
        lemma_first_index(front, text);
        assert forall|j: int| 0 <= j < front.len() implies front[j] == list[j] by {}
    }
}

/// The position of a text in a list of strings.
pub fn position(list: &[String], text: &str) -> (r: Option<usize>)
    ensures
        match r {
            Some(i) => {
                &&& first_index(texts(list@), text@) == Some(i as int)
                &&& i < list.len()
                &&& list@[i as int]@ == text@
                &&& forall|j: int| 0 <= j < i ==> (#[trigger] list@[j])@ != text@
            },
            None => first_index(texts(list@), text@) is None && forall|j: int|
                0 <= j < list.len() ==> (#[trigger] list@[j])@ != text@,
        },
{
    let ghost all = texts(list@);
    let mut i: usize = 0;
    while i < list.len()
        invariant
            i <= list.len(),
            all == texts(list@),
            forall|j: int| 0 <= j < i ==> (#[trigger] list@[j])@ != text@,
        decreases list.len() - i,
    {
        if same(list[i].as_str(), text) {
            proof {
                lemma_first_index(all, text@);
                assert(all[i as int] == text@);
                match first_index(all, text@) {
                    Some(k) => {
                        assert(list@[k]@ == text@);
                    },
                    None => {},
                }
            }
            return Some(i);
        }
        i = i + 1;
    }
    proof {
        lemma_first_index(all, text@);
        match first_index(all, text@) {
            Some(k) => {
                assert(list@[k]@ == text@);
            },
            None => {},
        }
    }
    None
}

/// A copy of a list of strings.
pub fn copy_texts(list: &[String]) -> (r: Vec<String>)
    ensures
        texts(r@) == texts(list@),
{
    let mut r: Vec<String> = Vec::new();
    let mut i: usize = 0;
    while i < list.len()
        invariant
            i <= list.len(),
            r@.len() == i,
            forall|k: int| 0 <= k < i ==> (#[trigger] r@[k])@ == list@[k]@,
        decreases list.len() - i,
    {
        r.push(list[i].clone());
        i = i + 1;
    }
    assert(texts(r@) =~= texts(list@));
    r
}

/// Texts one after the other.
pub open spec fn concat(parts: Seq<Seq<char>>) -> Seq<char>
    decreases parts.len(),
{
    if parts.len() == 0 {
        Seq::empty()
    } else {
        concat(parts.drop_last()) + parts.last()
    }
}

/// One more part at the end.
pub proof fn lemma_concat_push(parts: Seq<Seq<char>>, last: Seq<char>)
    ensures
        concat(parts.push(last)) == concat(parts) + last,
{
    assert(parts.push(last).drop_last() =~= parts);
}

/// Texts with a separator between each two.
pub open spec fn joined(parts: Seq<Seq<char>>, separator: Seq<char>) -> Seq<char>
    decreases parts.len(),
{
    if parts.len() == 0 {
        Seq::empty()
    } else if parts.len() == 1 {
        parts[0]
    } else {
        joined(parts.drop_last(), separator) + separator + parts.last()
    }
}

pub fn join(parts: &[String], separator: &str) -> (r: String)
    ensures
        r@ == joined(texts(parts@), separator@),
{
    let mut r = String::new();
    let ghost all = texts(parts@);
    let mut i: usize = 0;
    while i < parts.len()
        invariant
            i <= parts.len(),
            all == texts(parts@),
            r@ == joined(all.take(i as int), separator@),
        decreases parts.len() - i,
    {
        assert(all.take(i + 1).drop_last() =~= all.take(i as int));
        if i > 0 {
            r.append(separator);
        }
        r.append(parts[i].as_str());
        i = i + 1;
        assert(r@ =~= joined(all.take(i as int), separator@));
    }
    assert(all.take(i as int) =~= all);
    r
}

pub open spec fn digit_char(d: nat) -> char {
    if d == 0 {
        '0'
    } else if d == 1 {
        '1'
    } else if d == 2 {
        '2'
    } else if d == 3 {
        '3'
    } else if d == 4 {
        '4'
    } else if d == 5 {
        '5'
    } else if d == 6 {
        '6'
    } else if d == 7 {
        '7'
    } else if d == 8 {
        '8'
    } else {
        '9'
    }
}

fn digit(d: u128) -> (r: char)
    ensures
        r == digit_char(d as nat),
{
    if d == 0 {
        '0'
    } else if d == 1 {
        '1'
    } else if d == 2 {
        '2'
    } else if d == 3 {
        '3'
    } else if d == 4 {
        '4'
    } else if d == 5 {
        '5'
    } else if d == 6 {
        '6'
    } else if d == 7 {
        '7'
    } else if d == 8 {
        '8'
    } else {
        '9'
    }
}

/// A number in decimal notation.
pub open spec fn decimal_text(n: nat) -> Seq<char>
    decreases n,
{
    if n < 10 {
        seq![digit_char(n)]
    } else {
        decimal_text(n / 10).push(digit_char(n % 10))
    }
}

/// Different numbers are written differently.
pub proof fn lemma_decimal_distinct(a: nat, b: nat)
    requires
        decimal_text(a) == decimal_text(b),
    ensures
        a == b,
    decreases a,
{
    lemma_decimal_digits(a);
    lemma_decimal_digits(b);
    assert(decimal_text(a).last() == digit_char(a % 10));
    assert(decimal_text(b).last() == digit_char(b % 10));
    if a >= 10 && b >= 10 {
        assert(decimal_text(a / 10) =~= decimal_text(a).drop_last());
        assert(decimal_text(b / 10) =~= decimal_text(b).drop_last());
        lemma_decimal_distinct(a / 10, b / 10);
    } else if a >= 10 {
        lemma_decimal_digits(a / 10);
        assert(decimal_text(a).len() > 1);
    } else if b >= 10 {
        lemma_decimal_digits(b / 10);
        assert(decimal_text(b).len() > 1);
    }
}

/// A number is written in digits.
pub proof fn lemma_decimal_digits(n: nat)
    ensures
        decimal_text(n).len() > 0,
        forall|i: int| 0 <= i < decimal_text(n).len() ==> '0' <= #[trigger] decimal_text(n)[i] <= '9',
    decreases n,
{
    if n >= 10 {
        lemma_decimal_digits(n / 10);
    }
}

pub fn decimal(n: u128) -> (r: String)
    ensures
        r@ == decimal_text(n as nat),
    decreases n,
{
    if n < 10 {
        let mut r = String::new();
        r.push(digit(n));
        assert(r@ =~= decimal_text(n as nat));
        r
    } else {
        let mut r = decimal(n / 10);
        r.push(digit(n % 10));
        r
    }
}

/// The list holds the text.
pub fn contains_text(list: &[String], text: &str) -> (r: bool)
    ensures
        r == texts(list@).contains(text@),
{
    let found = position(list, text);
    proof {
        match found {
            Some(i) => {
                assert(texts(list@)[i as int] == text@);
            },
            None => {
                assert forall|j: int| 0 <= j < texts(list@).len() implies texts(list@)[j] != text@ by {
                    assert(list@[j]@ != text@);
                }
            },
        }
    }
    found.is_some()
}

/// White space as `str::trim` and `str::split_whitespace` understand it.
pub open spec fn is_space(c: char) -> bool {
    let n = c as u32;
    ||| 9 <= n <= 13
    ||| n == 32
    ||| n == 0x85
    ||| n == 0xa0
    ||| n == 0x1680
    ||| 0x2000 <= n <= 0x200a
    ||| n == 0x2028
    ||| n == 0x2029
    ||| n == 0x202f
    ||| n == 0x205f
    ||| n == 0x3000
}

pub fn space(c: char) -> (r: bool)
    ensures
        r == is_space(c),
{
    let n: u32 = c as u32;
    (9 <= n && n <= 13) || n == 32 || n == 0x85 || n == 0xa0 || n == 0x1680 || (0x2000 <= n && n <= 0x200a) || n
        == 0x2028 || n == 0x2029 || n == 0x202f || n == 0x205f || n == 0x3000
}

/// An ASCII letter or digit.
pub open spec fn ascii_alphanumeric(c: char) -> bool {
    let n = c as u32;
    48 <= n <= 57 || 65 <= n <= 90 || 97 <= n <= 122
}

/// What `char::is_alphanumeric` says of a character.
pub uninterp spec fn alphanumeric(c: char) -> bool;

/// `char::is_alphanumeric`: depends on the character alone; on ASCII it
/// accepts the letters and digits. What it says of the rest of Unicode is
/// left to its tables.
pub assume_specification[ char::is_alphanumeric ](c: char) -> (r: bool)
    ensures
        r == alphanumeric(c),
        (c as u32) < 128 ==> r == ascii_alphanumeric(c),
;

/// `pattern` stands in `s` at position `i`.
pub open spec fn occurs_at(s: Seq<char>, pattern: Seq<char>, i: int) -> bool {
    0 <= i && i + pattern.len() <= s.len() && s.subrange(i, i + pattern.len()) == pattern
}

/// The first position at or after `from` where `pattern` stands.
pub open spec fn find(s: Seq<char>, pattern: Seq<char>, from: int) -> Option<int>
    decreases s.len() + 1 - from,
{
    if from < 0 || from + pattern.len() > s.len() {
        None
    } else if occurs_at(s, pattern, from) {
        Some(from)
    } else {
        find(s, pattern, from + 1)
    }
}

/// Where `find` finds, the pattern stands, and nowhere before.
pub proof fn lemma_find(s: Seq<char>, pattern: Seq<char>, from: int)
    requires
        0 <= from,
    ensures
        match find(s, pattern, from) {
            Some(i) => from <= i && occurs_at(s, pattern, i) && forall|j: int|
                from <= j < i ==> !#[trigger] occurs_at(s, pattern, j),
            None => forall|j: int| from <= j ==> !#[trigger] occurs_at(s, pattern, j),
        },
    decreases s.len() + 1 - from,
{
    if from + pattern.len() <= s.len() && !occurs_at(s, pattern, from) {
        lemma_find(s, pattern, from + 1);
    }
}

/// `pattern` stands somewhere in `s`.
pub open spec fn has(s: Seq<char>, pattern: Seq<char>) -> bool {
    find(s, pattern, 0) is Some
}

/// Decides whether `pattern` stands at position `i`.
pub fn stands_at(s: &[char], pattern: &str, i: usize) -> (r: bool)
    ensures
        r == occurs_at(s@, pattern@, i as int),
{
    if i > s.len() {
        return false;
    }
    let mut rest = pattern.chars();
    let ghost mut k: int = 0;
    let mut j: usize = i;
    loop
        invariant
            rest.obeys_prophetic_iter_laws(),
            0 <= k <= pattern@.len(),
            rest.remaining() == pattern@.skip(k),
            j == i + k,
            j <= s@.len(),
            forall|x: int| 0 <= x < k ==> s@[i + x] == #[trigger] pattern@[x],
        decreases pattern@.len() - k,
    {
        match rest.next() {
            None => {
                assert(s@.subrange(i as int, i + pattern@.len()) =~= pattern@);
                return true;
            },
            Some(c) => {
                if j >= s.len() {
                    return false;
                }
                if s[j] != c {
                    proof {
                        if occurs_at(s@, pattern@, i as int) {
                            assert(s@.subrange(i as int, i + pattern@.len())[k] == pattern@[k]);
                        }
                    }
                    return false;
                }
                proof {
                    assert(pattern@.skip(k).drop_first() =~= pattern@.skip(k + 1));
                    k = k + 1;
                }
                j = j + 1;
            },
        }
    }
}

pub fn find_from(s: &[char], pattern: &str, from: usize) -> (r: Option<usize>)
    ensures
        match r {
            Some(i) => find(s@, pattern@, from as int) == Some(i as int),
            None => find(s@, pattern@, from as int) is None,
        },
        r matches Some(i) ==> from <= i && i + pattern@.len() <= s@.len() && occurs_at(s@, pattern@, i as int),
{
    let mut i: usize = from;
    while i <= s.len()
        invariant
            from <= i,
            i <= s@.len() || i == from,
            find(s@, pattern@, from as int) == find(s@, pattern@, i as int),
        decreases s.len() + 1 - i,
    {
        if stands_at(s, pattern, i) {
            return Some(i);
        }
        if i == s.len() {
            assert(pattern@.len() > 0) by {
                if pattern@.len() == 0 {
                    assert(s@.subrange(i as int, i as int) =~= pattern@);
                }
            }
            return None;
        }
        i = i + 1;
    }
    None
}

/// The first position at or after `i` that holds no white space.
pub open spec fn skip_space(s: Seq<char>, i: int) -> int
    decreases s.len() - i,
{
    if 0 <= i < s.len() && is_space(s[i]) {
        skip_space(s, i + 1)
    } else {
        i
    }
}

pub fn after_space(s: &[char], i: usize) -> (r: usize)
    requires
        i <= s@.len(),
    ensures
        r == skip_space(s@, i as int),
        i <= r <= s@.len(),
{
    let mut k: usize = i;
    while k < s.len() && space(s[k])
        invariant
            i <= k <= s@.len(),
            skip_space(s@, i as int) == skip_space(s@, k as int),
        decreases s.len() - k,
    {
        k = k + 1;
    }
    k
}

/// The first position at or after `i` that holds white space.
pub open spec fn word_end(s: Seq<char>, i: int) -> int
    decreases s.len() - i,
{
    if 0 <= i < s.len() && !is_space(s[i]) {
        word_end(s, i + 1)
    } else {
        i
    }
}

pub proof fn lemma_spans(s: Seq<char>, i: int)
    requires
        0 <= i <= s.len(),
    ensures
        i <= skip_space(s, i) <= s.len(),
        skip_space(s, i) < s.len() ==> !is_space(s[skip_space(s, i)]),
        i <= word_end(s, i) <= s.len(),
        i < s.len() && !is_space(s[i]) ==> i < word_end(s, i),
    decreases s.len() - i,
{
    if i < s.len() {
        lemma_spans(s, i + 1);
    }
}

/// The maximal runs of characters that are not white space, from `i` on.
pub open spec fn words_from(s: Seq<char>, i: int) -> Seq<Seq<char>>
    decreases s.len() - i,
{
    let a = skip_space(s, i);
    let b = word_end(s, a);
    if i < 0 || a < i || a >= s.len() || b <= a || b > s.len() {
        Seq::empty()
    } else {
        seq![s.subrange(a, b)] + words_from(s, b)
    }
}

pub open spec fn words(s: Seq<char>) -> Seq<Seq<char>> {
    words_from(s, 0)
}

/// White space collapsed to single spaces, none at the ends.
pub open spec fn normalized(s: Seq<char>) -> Seq<char> {
    joined(words(s), " "@)
}

/// The words of a text (`str::split_whitespace`).
pub fn split_words(s: &[char]) -> (r: Vec<String>)
    ensures
        texts(r@) == words(s@),
{
    let mut r: Vec<String> = Vec::new();
    let mut i: usize = 0;
    assert(texts(r@) + words_from(s@, 0) =~= words(s@));
    loop
        invariant
            i <= s@.len(),
            texts(r@) + words_from(s@, i as int) == words(s@),
        decreases s.len() - i,
    {
        let a: usize = after_space(s, i);
        proof {
            lemma_spans(s@, i as int);
        }
        if a >= s.len() {
            assert(texts(r@) + words_from(s@, i as int) =~= texts(r@));
            return r;
        }
        let mut b: usize = a;
        while b < s.len() && !space(s[b])
            invariant
                a <= b <= s@.len(),
                word_end(s@, a as int) == word_end(s@, b as int),
            decreases s.len() - b,
        {
            b = b + 1;
        }
        proof {
            lemma_spans(s@, a as int);
        }
        let word = string_of(vstd::slice::slice_subrange(s, a, b));
        let ghost r0 = r@;
        r.push(word);
        proof {
            assert(texts(r@) =~= texts(r0).push(word@));
            assert(texts(r0) + words_from(s@, i as int) =~= texts(r@) + words_from(s@, b as int));
        }
        i = b;
    }
}

pub fn normalize(s: &[char]) -> (r: String)
    ensures
        r@ == normalized(s@),
{
    join(split_words(s).as_slice(), " ")
}

/// The first position at or after `from` that holds `c`.
pub open spec fn find_char(s: Seq<char>, c: char, from: int) -> Option<int>
    decreases s.len() - from,
{
    if from < 0 || from >= s.len() {
        None
    } else if s[from] == c {
        Some(from)
    } else {
        find_char(s, c, from + 1)
    }
}

pub fn char_from(s: &[char], c: char, from: usize) -> (r: Option<usize>)
    ensures
        match r {
            Some(i) => find_char(s@, c, from as int) == Some(i as int),
            None => find_char(s@, c, from as int) is None,
        },
        r matches Some(i) ==> from <= i < s@.len() && s@[i as int] == c,
{
    let mut i: usize = from;
    while i < s.len()
        invariant
            from <= i,
            find_char(s@, c, from as int) == find_char(s@, c, i as int),
        decreases s.len() - i,
    {
        if s[i] == c {
            return Some(i);
        }
        i = i + 1;
    }
    None
}

/// The number of bytes that a character takes in UTF-8.
pub open spec fn utf8_width(c: char) -> nat {
    let n = c as u32;
    if n < 0x80 {
        1
    } else if n < 0x800 {
        2
    } else if n < 0x1_0000 {
        3
    } else {
        4
    }
}

/// The number of bytes that a text takes in UTF-8.
pub open spec fn utf8_length(s: Seq<char>) -> nat
    decreases s.len(),
{
    if s.len() == 0 {
        0
    } else {
        utf8_length(s.drop_last()) + utf8_width(s.last())
    }
}

pub proof fn lemma_utf8_length(s: Seq<char>)
    ensures
        s.len() <= utf8_length(s) <= 4 * s.len(),
    decreases s.len(),
{
    if s.len() > 0 {
        lemma_utf8_length(s.drop_last());
    }
}

/// The byte offset of position `i`.
pub fn byte_offset(s: &[char], i: usize) -> (r: u128)
    requires
        i <= s@.len(),
    ensures
        r == utf8_length(s@.take(i as int)),
{
    let mut n: u128 = 0;
    let mut k: usize = 0;
    while k < i
        invariant
            k <= i <= s@.len(),
            n == utf8_length(s@.take(k as int)),
            n <= 4 * k,
        decreases i - k,
    {
        let c: u32 = s[k] as u32;
        assert(s@.take(k + 1).drop_last() =~= s@.take(k as int));
        let width: u128 = if c < 0x80 {
            1
        } else if c < 0x800 {
            2
        } else if c < 0x1_0000 {
            3
        } else {
            4
        };
        n = n + width;
        k = k + 1;
    }
    n
}

/// What `Debug` formatting makes of a string.
pub uninterp spec fn debug_text(s: Seq<char>) -> Seq<char>;

/// `format!("{:?}", s)`: the text in quotes with its escapes, which depend
/// on the text alone. Which characters are escaped, and how, is not stated.
#[verifier::external_body]
pub(crate) fn debug_format(s: &str) -> (r: String)
    ensures
        r@ == debug_text(s@),
{
    format!("{s:?}")
}

/// Only ASCII characters.
pub open spec fn all_ascii(s: Seq<char>) -> bool {
    forall|i: int| 0 <= i < s.len() ==> (#[trigger] s[i] as u32) < 128
}

pub open spec fn ascii_upper(c: char) -> char {
    if 'a' <= c <= 'z' {
        ((c as u32 - 32) as u32) as char
    } else {
        c
    }
}

pub open spec fn ascii_lower(c: char) -> char {
    if 'A' <= c <= 'Z' {
        ((c as u32 + 32) as u32) as char
    } else {
        c
    }
}

/// What `str::to_uppercase` makes of a text.
pub uninterp spec fn uppercase(s: Seq<char>) -> Seq<char>;

/// What `str::to_lowercase` makes of a text.
pub uninterp spec fn lowercase(s: Seq<char>) -> Seq<char>;

/// `str::to_uppercase`: depends on the text alone; ASCII letters are mapped
/// one by one. What becomes of other characters is left to Unicode's tables.
pub assume_specification[ str::to_uppercase ](s: &str) -> (r: String)
    ensures
        r@ == uppercase(s@),
        all_ascii(s@) ==> r@ == s@.map_values(|c: char| ascii_upper(c)),
;

/// `str::to_lowercase`: depends on the text alone; ASCII letters are mapped
/// one by one. What becomes of other characters is left to Unicode's tables.
pub assume_specification[ str::to_lowercase ](s: &str) -> (r: String)
    ensures
        r@ == lowercase(s@),
        all_ascii(s@) ==> r@ == s@.map_values(|c: char| ascii_lower(c)),
;

pub fn upper_chars(s: &[char]) -> (r: Vec<char>)
    ensures
        r@ == uppercase(s@),
{
    chars_of(string_of(s).to_uppercase().as_str())
}

/// What `char::is_uppercase` says of a character.
pub uninterp spec fn is_upper(c: char) -> bool;

/// `char::is_uppercase`: depends on the character alone; on ASCII it accepts
/// the letters from A to Z. The rest is left to Unicode's tables.
pub assume_specification[ char::is_uppercase ](c: char) -> (r: bool)
    ensures
        r == is_upper(c),
        (c as u32) < 128 ==> r == ('A' <= c <= 'Z'),
;

/// What `char::is_lowercase` says of a character.
pub uninterp spec fn is_lower(c: char) -> bool;

/// `char::is_lowercase`: depends on the character alone; on ASCII it accepts
/// the letters from a to z. The rest is left to Unicode's tables.
pub assume_specification[ char::is_lowercase ](c: char) -> (r: bool)
    ensures
        r == is_lower(c),
        (c as u32) < 128 ==> r == ('a' <= c <= 'z'),
;

} // verus!
