//! The nesting of conditional tags: clusters of branches and their content.

use vstd::prelude::*;

use crate::lift::tag_scan::{next_tag, scan_tag, Tag, TagKind, TagView, SUMMARY_CHARS};
use crate::text::{
    byte_offset, chars_of, debug_format, debug_text, decimal, decimal_text, normalize, normalized, string_of,
    utf8_length,
};

verus! {

/// What a conditional tag holds, in order.
#[derive(Debug)]
pub enum Body {
    End,
    Text(String, Box<Body>),
    Cond(Box<Arms>, Box<Body>),
}

/// The branches of a conditional; the last one is taken when no test holds.
/// A `c:if` has one test and nothing otherwise.
#[derive(Debug)]
pub enum Arms {
    Otherwise(Box<Body>),
    When(String, Box<Body>, Box<Arms>),
}

/// A body as mathematics.
pub enum BodyView {
    End,
    Text(Seq<char>, Box<BodyView>),
    Cond(Box<ArmsView>, Box<BodyView>),
}

pub enum ArmsView {
    Otherwise(Box<BodyView>),
    When(Seq<char>, Box<BodyView>, Box<ArmsView>),
}

pub open spec fn body_view(b: Body) -> BodyView
    decreases b,
{
    match b {
        Body::End => BodyView::End,
        Body::Text(t, rest) => BodyView::Text(t@, Box::new(body_view(*rest))),
        Body::Cond(arms, rest) => BodyView::Cond(Box::new(arms_view(*arms)), Box::new(body_view(*rest))),
    }
}

pub open spec fn arms_view(a: Arms) -> ArmsView
    decreases a,
{
    match a {
        Arms::Otherwise(b) => ArmsView::Otherwise(Box::new(body_view(*b))),
        Arms::When(test, b, more) => ArmsView::When(test@, Box::new(body_view(*b)), Box::new(arms_view(*more))),
    }
}

/// The content outside markup: inside a tag or not, and the text so far;
/// each `>` leaves a space.
pub open spec fn stripped(s: Seq<char>) -> (bool, Seq<char>)
    decreases s.len(),
{
    if s.len() == 0 {
        (false, Seq::empty())
    } else {
        let (in_tag, text) = stripped(s.drop_last());
        if s.last() == '<' {
            (true, text)
        } else if s.last() == '>' {
            (false, text.push(' '))
        } else if in_tag {
            (in_tag, text)
        } else {
            (in_tag, text.push(s.last()))
        }
    }
}

/// A short text summary of a content span: tags stripped, whitespace
/// collapsed, truncated. None when nothing meaningful remains.
pub open spec fn summary(s: Seq<char>) -> Option<Seq<char>> {
    let text = normalized(stripped(s).1);
    if text.len() == 0 {
        None
    } else if text.len() > SUMMARY_CHARS {
        Some(text.take(SUMMARY_CHARS as int) + "…"@)
    } else {
        Some(text)
    }
}

/// A tag as it appears in messages.
pub open spec fn tag_text(kind: TagKind, closing: bool, test: Seq<char>) -> Seq<char> {
    match (kind, closing) {
        (TagKind::If, false) => "OpenIf("@ + debug_text(test) + ")"@,
        (TagKind::If, true) => "CloseIf"@,
        (TagKind::Choose, false) => "OpenChoose"@,
        (TagKind::Choose, true) => "CloseChoose"@,
        (TagKind::When, false) => "OpenWhen("@ + debug_text(test) + ")"@,
        (TagKind::When, true) => "CloseWhen"@,
        (TagKind::Otherwise, false) => "OpenOtherwise"@,
        (TagKind::Otherwise, true) => "CloseOtherwise"@,
    }
}

/// Content of `s` between two positions put before a body.
pub open spec fn with_text(s: Seq<char>, from: int, to: int, rest: BodyView) -> BodyView {
    match summary(s.subrange(from, to)) {
        Some(t) => BodyView::Text(t, Box::new(rest)),
        None => rest,
    }
}

/// Where a body ends once its closing tag of the given kind is read.
pub open spec fn body_at(s: Seq<char>, pos: int, until: TagKind) -> Result<(BodyView, int), Seq<char>>
    decreases s.len() - pos, 0nat,
{
    match next_tag(s, pos) {
        Err(e) => Err(e),
        Ok(None) => Err("missing "@ + tag_text(until, true, Seq::empty())),
        Ok(Some(t)) => if pos < 0 || t.end <= pos || t.end > s.len() {
            Err(Seq::empty())
        } else if t.closing && t.kind == until {
            Ok((with_text(s, pos, t.start, BodyView::End), t.end))
        } else if !t.closing && (t.kind == TagKind::If || t.kind == TagKind::Choose) {
            match cond_at(s, t) {
                Err(e) => Err(e),
                Ok((arms, after)) => if after < t.end || after > s.len() {
                    Err(Seq::empty())
                } else {
                    match body_at(s, after, until) {
                        Err(e) => Err(e),
                        Ok((rest, end)) => Ok(
                            (with_text(s, pos, t.start, BodyView::Cond(Box::new(arms), Box::new(rest))), end),
                        ),
                    }
                },
            }
        } else {
            Err(
                "unexpected "@ + tag_text(t.kind, t.closing, t.test) + " (expected "@ + tag_text(
                    until,
                    true,
                    Seq::empty(),
                ) + ")"@,
            )
        },
    }
}

/// The conditional whose opening tag is `t`, and where it ends.
pub open spec fn cond_at(s: Seq<char>, t: TagView) -> Result<(ArmsView, int), Seq<char>>
    decreases s.len() - t.end, 2nat,
{
    if t.kind == TagKind::If {
        match body_at(s, t.end, TagKind::If) {
            Err(e) => Err(e),
            Ok((body, after)) => Ok(
                (
                    ArmsView::When(
                        t.test,
                        Box::new(body),
                        Box::new(ArmsView::Otherwise(Box::new(BodyView::End))),
                    ),
                    after,
                ),
            ),
        }
    } else {
        arms_at(s, t.end, BodyView::End)
    }
}

/// The branches of a `c:choose` from `pos` on, with what is rendered otherwise so far.
pub open spec fn arms_at(s: Seq<char>, pos: int, otherwise: BodyView) -> Result<(ArmsView, int), Seq<char>>
    decreases s.len() - pos, 1nat,
{
    match next_tag(s, pos) {
        Err(e) => Err(e),
        Ok(None) => Err("unclosed <c:choose>"@),
        Ok(Some(t)) => if pos < 0 || t.end <= pos || t.end > s.len() {
            Err(Seq::empty())
        } else if t.closing && t.kind == TagKind::Choose {
            Ok((ArmsView::Otherwise(Box::new(otherwise)), t.end))
        } else if !t.closing && (t.kind == TagKind::When || t.kind == TagKind::Otherwise) {
            match body_at(s, t.end, t.kind) {
                Err(e) => Err(e),
                Ok((body, after)) => if after < t.end || after > s.len() {
                    Err(Seq::empty())
                } else if t.kind == TagKind::Otherwise {
                    arms_at(s, after, body)
                } else {
                    match arms_at(s, after, otherwise) {
                        Err(e) => Err(e),
                        Ok((more, end)) => Ok((ArmsView::When(t.test, Box::new(body), Box::new(more)), end)),
                    }
                },
            }
        } else {
            Err("unexpected "@ + tag_text(t.kind, t.closing, t.test) + " inside <c:choose>"@)
        },
    }
}

/// One top-level conditional.
pub struct ClusterView {
    pub line: nat,
    pub start: int,
    pub end: int,
    pub arms: ArmsView,
}

/// The number of line breaks.
pub open spec fn line_breaks(s: Seq<char>) -> nat
    decreases s.len(),
{
    if s.len() == 0 {
        0
    } else {
        line_breaks(s.drop_last()) + if s.last() == '\n' {
            1nat
        } else {
            0nat
        }
    }
}

/// The 1-based line of a position.
pub open spec fn line_at(s: Seq<char>, i: int) -> nat {
    line_breaks(s.take(i)) + 1
}

/// The top-level conditionals from `pos` on; each becomes its own cluster.
pub open spec fn clusters_from(s: Seq<char>, pos: int) -> Result<Seq<ClusterView>, Seq<char>>
    decreases s.len() - pos,
{
    match next_tag(s, pos) {
        Err(e) => Err(e),
        Ok(None) => Ok(Seq::empty()),
        Ok(Some(t)) => if pos < 0 || t.end <= pos || t.end > s.len() {
            Err(Seq::empty())
        } else if !t.closing && (t.kind == TagKind::If || t.kind == TagKind::Choose) {
            match cond_at(s, t) {
                Err(e) => Err(e),
                Ok((arms, after)) => if after < t.end || after > s.len() {
                    Err(Seq::empty())
                } else {
                    match clusters_from(s, after) {
                        Err(e) => Err(e),
                        Ok(rest) => Ok(
                            seq![ClusterView { line: line_at(s, t.start), start: t.start, end: after, arms }] + rest,
                        ),
                    }
                },
            }
        } else {
            Err("unexpected closing tag at byte "@ + decimal_text(utf8_length(s.take(t.start))))
        },
    }
}

/// Collapse a content span to a short text summary.
fn summarize(content: &[char]) -> (r: Option<String>)
    ensures
        match r {
            Some(t) => summary(content@) == Some(t@),
            None => summary(content@) is None,
        },
{
    let mut text: Vec<char> = Vec::new();
    let mut in_tag = false;
    let mut i: usize = 0;
    while i < content.len()
        invariant
            i <= content@.len(),
            stripped(content@.take(i as int)) == (in_tag, text@),
        decreases content.len() - i,
    {
        let c = content[i];
        assert(content@.take(i + 1).drop_last() =~= content@.take(i as int));
        if c == '<' {
            in_tag = true;
        } else if c == '>' {
            in_tag = false;
            text.push(' ');
        } else if !in_tag {
            text.push(c);
        }
        i = i + 1;
    }
    assert(content@.take(i as int) =~= content@);
    let collapsed = normalize(text.as_slice());
    let chars = chars_of(collapsed.as_str());
    if chars.len() == 0 {
        None
    } else if chars.len() > SUMMARY_CHARS {
        let mut short = string_of(vstd::slice::slice_subrange(chars.as_slice(), 0, SUMMARY_CHARS));
        assert(short@ =~= collapsed@.take(SUMMARY_CHARS as int));
        short.append("…");
        Some(short)
    } else {
        Some(collapsed)
    }
}

fn describe(kind: TagKind, closing: bool, test: &str) -> (r: String)
    ensures
        r@ == tag_text(kind, closing, test@),
{
    match (kind, closing) {
        (TagKind::If, false) => {
            let mut r = "OpenIf(".to_owned();
            r.append(debug_format(test).as_str());
            r.append(")");
            r
        },
        (TagKind::If, true) => "CloseIf".to_owned(),
        (TagKind::Choose, false) => "OpenChoose".to_owned(),
        (TagKind::Choose, true) => "CloseChoose".to_owned(),
        (TagKind::When, false) => {
            let mut r = "OpenWhen(".to_owned();
            r.append(debug_format(test).as_str());
            r.append(")");
            r
        },
        (TagKind::When, true) => "CloseWhen".to_owned(),
        (TagKind::Otherwise, false) => "OpenOtherwise".to_owned(),
        (TagKind::Otherwise, true) => "CloseOtherwise".to_owned(),
    }
}

pub open spec fn body_result(r: Result<(Body, usize), String>) -> Result<(BodyView, int), Seq<char>> {
    match r {
        Ok((b, end)) => Ok((body_view(b), end as int)),
        Err(e) => Err(e@),
    }
}

pub open spec fn arms_result(r: Result<(Arms, usize), String>) -> Result<(ArmsView, int), Seq<char>> {
    match r {
        Ok((a, end)) => Ok((arms_view(a), end as int)),
        Err(e) => Err(e@),
    }
}

fn put_text(s: &[char], from: usize, to: usize, rest: Body) -> (r: Body)
    requires
        from <= to <= s@.len(),
    ensures
        body_view(r) == with_text(s@, from as int, to as int, body_view(rest)),
{
    match summarize(vstd::slice::slice_subrange(s, from, to)) {
        Some(t) => Body::Text(t, Box::new(rest)),
        None => rest,
    }
}

/// Parse children until the expected closing tag; text between tags becomes
/// content.
fn parse_body(s: &[char], pos: usize, until: TagKind) -> (r: Result<(Body, usize), String>)
    requires
        pos <= s@.len(),
    ensures
        body_result(r) == body_at(s@, pos as int, until),
        r matches Ok((_, end)) ==> pos < end <= s@.len(),
    decreases s@.len() - pos, 0nat,
{
    let tag = match scan_tag(s, pos) {
        Err(e) => {
            return Err(e);
        },
        Ok(None) => {
            let mut reason = "missing ".to_owned();
            reason.append(describe(until, true, "").as_str());
            proof {
                reveal_strlit("");
                assert(""@ =~= Seq::empty());
            }
            return Err(reason);
        },
        Ok(Some(tag)) => tag,
    };
    if tag.closing && tag.kind == until {
        return Ok((put_text(s, pos, tag.start, Body::End), tag.end));
    }
    if !tag.closing && (tag.kind == TagKind::If || tag.kind == TagKind::Choose) {
        let start: usize = tag.start;
        let (arms, after) = match parse_cond(s, tag) {
            Err(e) => {
                return Err(e);
            },
            Ok(found) => found,
        };
        let (rest, end) = match parse_body(s, after, until) {
            Err(e) => {
                return Err(e);
            },
            Ok(found) => found,
        };
        return Ok((put_text(s, pos, start, Body::Cond(Box::new(arms), Box::new(rest))), end));
    }
    let mut reason = "unexpected ".to_owned();
    reason.append(describe(tag.kind, tag.closing, tag.test.as_str()).as_str());
    reason.append(" (expected ");
    reason.append(describe(until, true, "").as_str());
    reason.append(")");
    proof {
        reveal_strlit("");
        assert(""@ =~= Seq::empty());
    }
    Err(reason)
}

/// Parse the conditional whose opening tag was just consumed.
fn parse_cond(s: &[char], tag: Tag) -> (r: Result<(Arms, usize), String>)
    requires
        tag.end <= s@.len(),
    ensures
        arms_result(r) == cond_at(s@, tag@),
        r matches Ok((_, end)) ==> tag.end <= end <= s@.len(),
    decreases s@.len() - tag.end, 2nat,
{
    proof {
        reveal_with_fuel(arms_view, 3);
        reveal_with_fuel(body_view, 3);
    }
    if tag.kind == TagKind::If {
        match parse_body(s, tag.end, TagKind::If) {
            Err(e) => Err(e),
            Ok((body, after)) => Ok(
                (Arms::When(tag.test, Box::new(body), Box::new(Arms::Otherwise(Box::new(Body::End)))), after),
            ),
        }
    } else {
        parse_arms(s, tag.end, Body::End)
    }
}

fn parse_arms(s: &[char], pos: usize, otherwise: Body) -> (r: Result<(Arms, usize), String>)
    requires
        pos <= s@.len(),
    ensures
        arms_result(r) == arms_at(s@, pos as int, body_view(otherwise)),
        r matches Ok((_, end)) ==> pos <= end <= s@.len(),
    decreases s@.len() - pos, 1nat,
{
    let tag = match scan_tag(s, pos) {
        Err(e) => {
            return Err(e);
        },
        Ok(None) => {
            return Err("unclosed <c:choose>".to_owned());
        },
        Ok(Some(tag)) => tag,
    };
    if tag.closing && tag.kind == TagKind::Choose {
        return Ok((Arms::Otherwise(Box::new(otherwise)), tag.end));
    }
    if !tag.closing && (tag.kind == TagKind::When || tag.kind == TagKind::Otherwise) {
        let (body, after) = match parse_body(s, tag.end, tag.kind) {
            Err(e) => {
                return Err(e);
            },
            Ok(found) => found,
        };
        if tag.kind == TagKind::Otherwise {
            return parse_arms(s, after, body);
        }
        return match parse_arms(s, after, otherwise) {
            Err(e) => Err(e),
            Ok((more, end)) => Ok((Arms::When(tag.test, Box::new(body), Box::new(more)), end)),
        };
    }
    let mut reason = "unexpected ".to_owned();
    reason.append(describe(tag.kind, tag.closing, tag.test.as_str()).as_str());
    reason.append(" inside <c:choose>");
    Err(reason)
}

/// One top-level conditional: its first line, its span and its branches.
#[derive(Debug)]
pub struct Cluster {
    pub line: u32,
    pub start: usize,
    pub end: usize,
    pub arms: Arms,
}

impl View for Cluster {
    type V = ClusterView;

    open spec fn view(&self) -> ClusterView {
        ClusterView {
            line: self.line as nat,
            start: self.start as int,
            end: self.end as int,
            arms: arms_view(self.arms),
        }
    }
}

pub open spec fn clusters_result(r: Result<Vec<Cluster>, String>) -> Result<Seq<ClusterView>, Seq<char>> {
    match r {
        Ok(cs) => Ok(cs@.map_values(|c: Cluster| c@)),
        Err(e) => Err(e@),
    }
}

/// No more line breaks lie before a position than in the whole text.
proof fn lemma_breaks_before(s: Seq<char>, i: int)
    requires
        0 <= i <= s.len(),
    ensures
        line_breaks(s.take(i)) <= line_breaks(s),
    decreases s.len() - i,
{
    if i < s.len() {
        lemma_breaks_before(s, i + 1);
        assert(s.take(i + 1).drop_last() =~= s.take(i));
    } else {
        assert(s.take(i) =~= s);
    }
}

fn line_of(s: &[char], i: usize) -> (r: u32)
    requires
        i <= s@.len(),
        line_breaks(s@) < u32::MAX,
    ensures
        r == line_at(s@, i as int),
{
    let mut n: u32 = 1;
    let mut k: usize = 0;
    while k < i
        invariant
            k <= i <= s@.len(),
            line_breaks(s@) < u32::MAX,
            n == line_breaks(s@.take(k as int)) + 1,
        decreases i - k,
    {
        assert(s@.take(k + 1).drop_last() =~= s@.take(k as int));
        if s[k] == '\n' {
            proof {
                lemma_breaks_before(s@, k + 1);
            }
            n = n + 1;
        }
        k = k + 1;
    }
    n
}

/// Parse top-level conditional clusters: each top-level `c:if`/`c:choose`
/// becomes its own cluster (with everything nested inside it).
pub fn parse_clusters(s: &[char]) -> (r: Result<Vec<Cluster>, String>)
    requires
        line_breaks(s@) < u32::MAX,
    ensures
        clusters_result(r) == clusters_from(s@, 0),
{
    let mut clusters: Vec<Cluster> = Vec::new();
    let mut pos: usize = 0;
    let ghost all = clusters_from(s@, 0);
    assert(clusters@.map_values(|c: Cluster| c@) =~= Seq::empty());
    loop
        invariant
            pos <= s@.len(),
            line_breaks(s@) < u32::MAX,
            all == clusters_from(s@, 0),
            all == match clusters_from(s@, pos as int) {
                Ok(rest) => Ok::<Seq<ClusterView>, Seq<char>>(clusters@.map_values(|c: Cluster| c@) + rest),
                Err(e) => Err(e),
            },
        decreases s@.len() - pos,
    {
        let tag = match scan_tag(s, pos) {
            Err(e) => {
                return Err(e);
            },
            Ok(None) => {
                assert(clusters@.map_values(|c: Cluster| c@) + Seq::<ClusterView>::empty()
                    =~= clusters@.map_values(|c: Cluster| c@));
                return Ok(clusters);
            },
            Ok(Some(tag)) => tag,
        };
        if !tag.closing && (tag.kind == TagKind::If || tag.kind == TagKind::Choose) {
            let start: usize = tag.start;
            let line: u32 = line_of(s, start);
            let (arms, after) = match parse_cond(s, tag) {
                Err(e) => {
                    return Err(e);
                },
                Ok(found) => found,
            };
            let ghost before = clusters@.map_values(|c: Cluster| c@);
            let cluster = Cluster { line, start, end: after, arms };
            clusters.push(cluster);
            proof {
                let now = clusters@.map_values(|c: Cluster| c@);
                assert(now =~= before.push(cluster@));
                if let Ok(rest) = clusters_from(s@, after as int) {
                    assert(before + (seq![cluster@] + rest) =~= now + rest);
                }
            }
            pos = after;
        } else {
            let mut reason = "unexpected closing tag at byte ".to_owned();
            reason.append(decimal(byte_offset(s, tag.start)).as_str());
            return Err(reason);
        }
    }
}

} // verus!
