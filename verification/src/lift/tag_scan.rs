//! A tolerant scanner for JSTL conditional markup.
//!
//! JSP is not well-formed XML, so only the `c:` conditional tags are
//! tracked; everything else is opaque content.

use vstd::prelude::*;

use crate::text::{
    after_space, alphanumeric, byte_offset, char_from, decimal, decimal_text, find, find_char, find_from, is_space,
    lemma_find, normalize, normalized, occurs_at, skip_space, space, stands_at, utf8_length, chars_of,
};

verus! {

/// Per-text-chunk cap in outcome labels.
pub const SUMMARY_CHARS: usize = 60;

#[derive(Debug, Clone, Copy, PartialEq, Eq, Structural)]
pub enum TagKind {
    If,
    Choose,
    When,
    Otherwise,
}

/// One scanned conditional tag occurrence. `test` is empty unless the tag
/// opens a `c:if` or `c:when`; `start` and `end` are character positions,
/// `end` just past the `>`.
#[derive(Debug, PartialEq, Eq)]
pub struct Tag {
    pub kind: TagKind,
    pub closing: bool,
    pub test: String,
    pub start: usize,
    pub end: usize,
}

/// A scanned tag as mathematics.
#[verifier::ext_equal]
pub struct TagView {
    pub kind: TagKind,
    pub closing: bool,
    pub test: Seq<char>,
    pub start: int,
    pub end: int,
}

impl View for Tag {
    type V = TagView;

    open spec fn view(&self) -> TagView {
        TagView {
            kind: self.kind,
            closing: self.closing,
            test: self.test@,
            start: self.start as int,
            end: self.end as int,
        }
    }
}

pub open spec fn kind_name(kind: TagKind) -> Seq<char> {
    match kind {
        TagKind::If => "c:if"@,
        TagKind::Choose => "c:choose"@,
        TagKind::When => "c:when"@,
        TagKind::Otherwise => "c:otherwise"@,
    }
}

/// The tag name stands at `i` and ends there.
pub open spec fn names_tag(s: Seq<char>, kind: TagKind, i: int) -> bool {
    let end = i + kind_name(kind).len();
    occurs_at(s, kind_name(kind), i) && (end >= s.len() || !alphanumeric(s[end]))
}

/// The conditional tag named at `i`.
pub open spec fn kind_at(s: Seq<char>, i: int) -> Option<TagKind> {
    if names_tag(s, TagKind::If, i) {
        Some(TagKind::If)
    } else if names_tag(s, TagKind::Choose, i) {
        Some(TagKind::Choose)
    } else if names_tag(s, TagKind::When, i) {
        Some(TagKind::When)
    } else if names_tag(s, TagKind::Otherwise, i) {
        Some(TagKind::Otherwise)
    } else {
        None
    }
}

/// The position just past the `>` that ends a tag, outside quoted attribute
/// values (EL can contain `>`).
pub open spec fn tag_end(s: Seq<char>, i: int, quote: Option<char>) -> Option<int>
    decreases s.len() - i,
{
    if i < 0 || i >= s.len() {
        None
    } else {
        match quote {
            Some(q) => tag_end(
                s,
                i + 1,
                if s[i] == q {
                    None
                } else {
                    quote
                },
            ),
            None => if s[i] == '"' || s[i] == '\'' {
                tag_end(s, i + 1, Some(s[i]))
            } else if s[i] == '>' {
                Some(i + 1)
            } else {
                tag_end(s, i + 1, None)
            },
        }
    }
}

/// The last character that is not white space is a slash.
pub open spec fn ends_in_slash(s: Seq<char>) -> bool
    decreases s.len(),
{
    if s.len() == 0 {
        false
    } else if is_space(s.last()) {
        ends_in_slash(s.drop_last())
    } else {
        s.last() == '/'
    }
}

/// The value of the `test` attribute, with white space collapsed.
pub open spec fn test_value(attrs: Seq<char>) -> Result<Seq<char>, Seq<char>> {
    match find(attrs, "test"@, 0) {
        None => Err("conditional tag without test attribute"@),
        Some(i) => {
            let eq = skip_space(attrs, i + 4);
            let quote = skip_space(attrs, eq + 1);
            if eq >= attrs.len() || attrs[eq] != '=' || quote >= attrs.len() {
                Err("malformed test"@)
            } else if attrs[quote] != '"' && attrs[quote] != '\'' {
                Err("unquoted test attribute"@)
            } else {
                match find_char(attrs, attrs[quote], quote + 1) {
                    None => Err("unterminated test attribute"@),
                    Some(end) => Ok(normalized(attrs.subrange(quote + 1, end))),
                }
            }
        },
    }
}

/// The earlier of two positions.
pub open spec fn earlier(a: Option<int>, b: Option<int>) -> Option<int> {
    match (a, b) {
        (Some(x), Some(y)) => Some(
            if x <= y {
                x
            } else {
                y
            },
        ),
        (Some(x), None) => Some(x),
        (None, _) => b,
    }
}

/// The next conditional tag at or after `pos`. Bodyless `<c:if/>` and other
/// `c:` tags are content.
pub open spec fn next_tag(s: Seq<char>, pos: int) -> Result<Option<TagView>, Seq<char>>
    decreases s.len() - pos,
{
    match earlier(find(s, "<c:"@, pos), find(s, "</c:"@, pos)) {
        None => Ok(None),
        Some(start) => if start < pos || start >= s.len() {
            Ok(None)
        } else {
            let closing = s[start + 1] == '/';
            let name = if closing {
                start + 2
            } else {
                start + 1
            };
            match kind_at(s, name) {
                None => next_tag(s, start + 1),
                Some(kind) => {
                    let body = name + kind_name(kind).len();
                    match tag_end(s, body, None) {
                        None => Err("unterminated tag at byte "@ + decimal_text(utf8_length(s.take(start)))),
                        Some(end) => {
                            let attrs = s.subrange(body, end - 1);
                            if !closing && kind == TagKind::If && ends_in_slash(attrs) {
                                if end <= pos || end > s.len() {
                                    Ok(None)
                                } else {
                                    next_tag(s, end)
                                }
                            } else if !closing && (kind == TagKind::If || kind == TagKind::When) {
                                match test_value(attrs) {
                                    Ok(test) => Ok(Some(TagView { kind, closing, test, start, end })),
                                    Err(e) => Err(e),
                                }
                            } else {
                                Ok(Some(TagView { kind, closing, test: Seq::empty(), start, end }))
                            }
                        },
                    }
                },
            }
        },
    }
}

proof fn lemma_tag_end(s: Seq<char>, i: int, quote: Option<char>)
    requires
        0 <= i,
    ensures
        tag_end(s, i, quote) matches Some(e) ==> i < e <= s.len(),
    decreases s.len() - i,
{
    if i < s.len() {
        match quote {
            Some(q) => {
                lemma_tag_end(s, i + 1, None);
                lemma_tag_end(s, i + 1, quote);
            },
            None => {
                lemma_tag_end(s, i + 1, Some(s[i]));
                lemma_tag_end(s, i + 1, None);
            },
        }
    }
}

/// A tag lies after the position the scan starts from.
pub proof fn lemma_next_tag(s: Seq<char>, pos: int)
    requires
        0 <= pos,
    ensures
        next_tag(s, pos) matches Ok(Some(t)) ==> pos <= t.start < t.end <= s.len(),
    decreases s.len() - pos,
{
    reveal_strlit("<c:");
    reveal_strlit("</c:");
    lemma_find(s, "<c:"@, pos);
    lemma_find(s, "</c:"@, pos);
    match earlier(find(s, "<c:"@, pos), find(s, "</c:"@, pos)) {
        None => {},
        Some(start) => {
            let name = if s[start + 1] == '/' {
                start + 2
            } else {
                start + 1
            };
            match kind_at(s, name) {
                None => {
                    lemma_next_tag(s, start + 1);
                },
                Some(kind) => {
                    let body = name + kind_name(kind).len();
                    lemma_tag_end(s, body, None);
                    match tag_end(s, body, None) {
                        None => {},
                        Some(end) => {
                            lemma_next_tag(s, end);
                        },
                    }
                },
            }
        },
    }
}

fn find_tag_end(s: &[char], pos: usize) -> (r: Option<usize>)
    ensures
        match r {
            Some(e) => tag_end(s@, pos as int, None) == Some(e as int) && pos < e <= s@.len(),
            None => tag_end(s@, pos as int, None) is None,
        },
{
    let mut quote: Option<char> = None;
    let mut i: usize = pos;
    while i < s.len()
        invariant
            pos <= i,
            tag_end(s@, pos as int, None) == tag_end(s@, i as int, quote),
        decreases s.len() - i,
    {
        let c = s[i];
        match quote {
            Some(q) => {
                if c == q {
                    quote = None;
                }
            },
            None => {
                if c == '"' || c == '\'' {
                    quote = Some(c);
                } else if c == '>' {
                    return Some(i + 1);
                }
            },
        }
        i = i + 1;
    }
    None
}

fn slash_at_end(s: &[char]) -> (r: bool)
    ensures
        r == ends_in_slash(s@),
{
    let mut n: usize = s.len();
    assert(s@.take(n as int) =~= s@);
    while n > 0
        invariant
            n <= s@.len(),
            ends_in_slash(s@) == ends_in_slash(s@.take(n as int)),
        decreases n,
    {
        assert(s@.take(n as int).drop_last() =~= s@.take(n - 1));
        if !space(s[n - 1]) {
            return s[n - 1] == '/';
        }
        n = n - 1;
    }
    false
}

/// A failed scan with its reason.
fn fail<T>(reason: &str) -> (r: Result<T, String>)
    ensures
        r matches Err(e) && e@ == reason@,
{
    Err(reason.to_owned())
}

fn extract_test(attrs: &[char]) -> (r: Result<String, String>)
    ensures
        match r {
            Ok(v) => test_value(attrs@) == Ok::<Seq<char>, Seq<char>>(v@),
            Err(e) => test_value(attrs@) == Err::<Seq<char>, Seq<char>>(e@),
        },
{
    let n: usize = attrs.len();
    proof {
        reveal_strlit("test");
    }
    match find_from(attrs, "test", 0) {
        None => fail("conditional tag without test attribute"),
        Some(i) => {
            let eq: usize = after_space(attrs, i + 4);
            if eq >= n || attrs[eq] != '=' {
                return fail("malformed test");
            }
            let quote: usize = after_space(attrs, eq + 1);
            if quote >= n {
                return fail("malformed test");
            }
            if attrs[quote] != '"' && attrs[quote] != '\'' {
                return fail("unquoted test attribute");
            }
            match char_from(attrs, attrs[quote], quote + 1) {
                None => fail("unterminated test attribute"),
                Some(end) => Ok(normalize(vstd::slice::slice_subrange(attrs, quote + 1, end))),
            }
        },
    }
}

fn is_named(s: &[char], kind: TagKind, name: &str, i: usize) -> (r: bool)
    requires
        name@ == kind_name(kind),
    ensures
        r == names_tag(s@, kind, i as int),
{
    let n: usize = s.len();
    if !stands_at(s, name, i) {
        return false;
    }
    let end: usize = i + chars_of(name).len();
    end >= n || !s[end].is_alphanumeric()
}

fn find_kind(s: &[char], i: usize) -> (r: Option<(TagKind, usize)>)
    ensures
        match r {
            Some(k) => kind_at(s@, i as int) == Some(k.0) && k.1 == i + kind_name(k.0).len() && k.1 <= s@.len(),
            None => kind_at(s@, i as int) is None,
        },
{
    let n: usize = s.len();
    if i > n {
        return None;
    }
    proof {
        reveal_strlit("c:if");
        reveal_strlit("c:choose");
        reveal_strlit("c:when");
        reveal_strlit("c:otherwise");
    }
    if is_named(s, TagKind::If, "c:if", i) {
        Some((TagKind::If, i + 4))
    } else if is_named(s, TagKind::Choose, "c:choose", i) {
        Some((TagKind::Choose, i + 8))
    } else if is_named(s, TagKind::When, "c:when", i) {
        Some((TagKind::When, i + 6))
    } else if is_named(s, TagKind::Otherwise, "c:otherwise", i) {
        Some((TagKind::Otherwise, i + 11))
    } else {
        None
    }
}

/// What a scan for a tag returns.
pub open spec fn scan_view(r: Result<Option<Tag>, String>) -> Result<Option<TagView>, Seq<char>> {
    match r {
        Ok(Some(t)) => Ok(Some(t@)),
        Ok(None) => Ok(None),
        Err(e) => Err(e@),
    }
}

/// Find the next `c:` conditional tag at or after `pos`.
pub fn scan_tag(s: &[char], from: usize) -> (r: Result<Option<Tag>, String>)
    requires
        from <= s@.len(),
    ensures
        scan_view(r) == next_tag(s@, from as int),
        r matches Ok(Some(t)) ==> from <= t.start < t.end <= s@.len(),
{
    proof {
        reveal_strlit("<c:");
        reveal_strlit("</c:");
    }
    let mut pos: usize = from;
    loop
        invariant
            from <= pos <= s@.len(),
            next_tag(s@, from as int) == next_tag(s@, pos as int),
            "<c:"@.len() == 3,
            "</c:"@.len() == 4,
        decreases s.len() - pos,
    {
        let open = find_from(s, "<c:", pos);
        let close = find_from(s, "</c:", pos);
        let start: usize = match (open, close) {
            (Some(o), Some(c)) => if o <= c {
                o
            } else {
                c
            },
            (Some(o), None) => o,
            (None, Some(c)) => c,
            (None, None) => {
                return Ok(None);
            },
        };
        let closing = s[start + 1] == '/';
        let name: usize = if closing {
            start + 2
        } else {
            start + 1
        };
        match find_kind(s, name) {
            None => {
                pos = start + 1;
            },
            Some((kind, body)) => {
                match find_tag_end(s, body) {
                    None => {
                        let mut reason = "unterminated tag at byte ".to_owned();
                        reason.append(decimal(byte_offset(s, start)).as_str());
                        return Err(reason);
                    },
                    Some(end) => {
                        let attrs = vstd::slice::slice_subrange(s, body, end - 1);
                        if !closing && kind == TagKind::If && slash_at_end(attrs) {
                            pos = end;
                        } else if !closing && (kind == TagKind::If || kind == TagKind::When) {
                            match extract_test(attrs) {
                                Ok(test) => {
                                    return Ok(Some(Tag { kind, closing, test, start, end }));
                                },
                                Err(e) => {
                                    return Err(e);
                                },
                            }
                        } else {
                            let test = String::new();
                            assert(test@ =~= Seq::empty());
                            return Ok(Some(Tag { kind, closing, test, start, end }));
                        }
                    },
                }
            },
        }
    }
}

} // verus!
