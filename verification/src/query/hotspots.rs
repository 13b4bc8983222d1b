//! Methods whose bodies hold many decisions.

use vstd::prelude::*;

use crate::lines::{begins, count_chars, is_free_at, is_free_before, free_at, free_before, lines, lines_of, starts_with, trim, trimmed, char_lists};
use crate::model::entity::JavaEntityType;
use crate::model::space_data::{entry_of, index_view, EntityRecord, EntityView, SpaceData, SpaceView};
use crate::order::{lemma_sorted_map, sort_stable, stable_sorted};
use crate::query::resolve::entity_views;
use crate::text::{chars_of, find, find_from};
use crate::text_map::{lookup, TextMap};

verus! {

#[derive(Debug)]
pub struct Hotspot {
    pub fqn: String,
    pub file: String,
    pub start_line: u32,
    pub end_line: u32,
    /// Lines of the method that are neither empty nor comments.
    pub loc: usize,
    /// Approximate cyclomatic complexity: decision points + 1.
    pub complexity: usize,
}

#[verifier::ext_equal]
pub struct HotspotView {
    pub fqn: Seq<char>,
    pub file: Seq<char>,
    pub start_line: u32,
    pub end_line: u32,
    pub loc: usize,
    pub complexity: usize,
}

impl View for Hotspot {
    type V = HotspotView;

    open spec fn view(&self) -> HotspotView {
        HotspotView {
            fqn: self.fqn@,
            file: self.file@,
            start_line: self.start_line,
            end_line: self.end_line,
            loc: self.loc,
            complexity: self.complexity,
        }
    }
}

#[derive(Debug)]
pub struct HotspotsResult {
    pub hotspots: Vec<Hotspot>,
    pub methods_analyzed: usize,
    pub note: String,
}

#[verifier::ext_equal]
pub struct HotspotsResultView {
    pub hotspots: Seq<HotspotView>,
    pub methods_analyzed: usize,
    pub note: Seq<char>,
}

impl View for HotspotsResult {
    type V = HotspotsResultView;

    open spec fn view(&self) -> HotspotsResultView {
        HotspotsResultView {
            hotspots: self.hotspots@.map_values(|x: Hotspot| x@),
            methods_analyzed: self.methods_analyzed,
            note: self.note@,
        }
    }
}

/// How often a pattern stands in a text from `from` on, counted from left to
/// right without overlaps.
pub open spec fn occurrences(s: Seq<char>, pattern: Seq<char>, from: int, whole_word: bool) -> nat
    decreases s.len() + 1 - from,
{
    match find(s, pattern, from) {
        None => 0,
        Some(i) => if pattern.len() == 0 || i < from || i + pattern.len() > s.len() {
            0
        } else {
            let counts = !whole_word || free_before(s, i) && free_at(s, i + pattern.len());
            occurrences(s, pattern, i + pattern.len(), whole_word) + if counts {
                1nat
            } else {
                0nat
            }
        },
    }
}

/// A number, or the largest one that can be represented.
pub open spec fn capped(n: nat) -> nat {
    if n > usize::MAX {
        usize::MAX as nat
    } else {
        n
    }
}

/// The decisions in a line: branching keywords and logical operators.
pub open spec fn points_in(line: Seq<char>) -> nat {
    occurrences(line, "if"@, 0, true) + occurrences(line, "for"@, 0, true) + occurrences(line, "while"@, 0, true)
        + occurrences(line, "case"@, 0, true) + occurrences(line, "catch"@, 0, true) + occurrences(
        line,
        "&&"@,
        0,
        false,
    ) + occurrences(line, "||"@, 0, false)
}

/// The decisions in some lines.
pub open spec fn points_of(body: Seq<Seq<char>>) -> nat
    decreases body.len(),
{
    if body.len() == 0 {
        0
    } else {
        points_of(body.drop_last()) + capped(points_in(body.last()))
    }
}

/// A line that is neither empty nor a comment.
pub open spec fn is_code(line: Seq<char>) -> bool {
    let t = trimmed(line);
    t.len() > 0 && !begins(t, "//"@) && !begins(t, "*"@) && !begins(t, "/*"@)
}

pub open spec fn code_lines(body: Seq<Seq<char>>) -> nat
    decreases body.len(),
{
    if body.len() == 0 {
        0
    } else {
        code_lines(body.drop_last()) + if is_code(body.last()) {
            1nat
        } else {
            0nat
        }
    }
}

/// Lines `start` to `end` of a text, counted from one.
pub open spec fn body_lines(content: Seq<char>, start: int, end: int) -> Seq<Seq<char>> {
    let all = lines(content);
    let last = if end < all.len() {
        end
    } else {
        all.len() as int
    };
    if start - 1 >= last {
        Seq::empty()
    } else {
        all.subrange(start - 1, last)
    }
}

/// A method or constructor whose lines are known.
pub open spec fn measured(e: EntityView, sources: Seq<(Seq<char>, Seq<char>)>) -> Option<HotspotView> {
    match lookup(sources, e.witness.file) {
        None => None,
        Some(content) => if (e.entity_type == JavaEntityType::Method || e.entity_type == JavaEntityType::Constructor)
            && e.witness.start_line > 0 && e.witness.end_line >= e.witness.start_line {
            let body = body_lines(content, e.witness.start_line as int, e.witness.end_line as int);
            Some(
                HotspotView {
                    fqn: e.fqn,
                    file: e.witness.file,
                    start_line: e.witness.start_line,
                    end_line: e.witness.end_line,
                    loc: code_lines(body) as usize,
                    complexity: capped(1nat + points_of(body)) as usize,
                },
            )
        } else {
            None
        },
    }
}

pub open spec fn all_measured(entities: Seq<EntityView>, sources: Seq<(Seq<char>, Seq<char>)>) -> Seq<HotspotView>
    decreases entities.len(),
{
    if entities.len() == 0 {
        Seq::empty()
    } else {
        let before = all_measured(entities.drop_last(), sources);
        match measured(entities.last(), sources) {
            Some(h) => before.push(h),
            None => before,
        }
    }
}

/// Most complex first; among equals the longest.
pub open spec fn by_complexity() -> spec_fn(HotspotView, HotspotView) -> bool {
    |a: HotspotView, b: HotspotView|
        a.complexity > b.complexity || a.complexity == b.complexity && a.loc >= b.loc
}

pub open spec fn hotspot_note() -> Seq<char> {
    "Complexity is approximated from decision-point keywords (if/for/while/case/catch, &&, ||) in the method body. Use as a refactoring triage signal, not a metric of record."@
}

/// The `limit` most complex methods whose sources are at hand.
pub open spec fn hotspots_in(space: SpaceView, sources: Seq<(Seq<char>, Seq<char>)>, limit: usize) -> Result<
    HotspotsResultView,
    Seq<char>,
> {
    if sources.len() == 0 {
        Err("hotspots requires source files (start the server with --source-root)"@)
    } else {
        let all = all_measured(space.entities, sources);
        let sorted = stable_sorted(all, by_complexity());
        Ok(
            HotspotsResultView {
                hotspots: if sorted.len() > limit {
                    sorted.take(limit as int)
                } else {
                    sorted
                },
                methods_analyzed: all.len() as usize,
                note: hotspot_note(),
            },
        )
    }
}

pub open spec fn hotspots_result(r: Result<HotspotsResult, String>) -> Result<HotspotsResultView, Seq<char>> {
    match r {
        Ok(x) => Ok(x@),
        Err(e) => Err(e@),
    }
}

fn count_occurrences(line: &[char], pattern: &str, whole_word: bool) -> (r: usize)
    ensures
        r == occurrences(line@, pattern@, 0, whole_word),
{
    let n: usize = count_chars(pattern);
    if n == 0 {
        return 0;
    }
    let len: usize = line.len();
    let mut count: usize = 0;
    let mut from: usize = 0;
    loop
        invariant
            len == line@.len(),
            n == pattern@.len(),
            n > 0,
            count <= from <= line@.len(),
            occurrences(line@, pattern@, 0, whole_word) == count + occurrences(
                line@,
                pattern@,
                from as int,
                whole_word,
            ),
        decreases line@.len() - from,
    {
        match find_from(line, pattern, from) {
            None => {
                return count;
            },
            Some(i) => {
                if !whole_word || is_free_before(line, i) && is_free_at(line, i + n) {
                    count = count + 1;
                }
                from = i + n;
            },
        }
    }
}

/// How often a keyword stands in a line as a word of its own.
pub fn count_keyword(line: &str, kw: &str) -> (r: usize)
    ensures
        r == occurrences(line@, kw@, 0, true),
{
    count_occurrences(chars_of(line).as_slice(), kw, true)
}

fn count_points(line: &[char]) -> (r: usize)
    ensures
        r == capped(points_in(line@)),
{
    let a: usize = count_occurrences(line, "if", true);
    let b: usize = count_occurrences(line, "for", true);
    let c: usize = count_occurrences(line, "while", true);
    let d: usize = count_occurrences(line, "case", true);
    let e: usize = count_occurrences(line, "catch", true);
    let f: usize = count_occurrences(line, "&&", false);
    let g: usize = count_occurrences(line, "||", false);
    a.saturating_add(b).saturating_add(c).saturating_add(d).saturating_add(e).saturating_add(f).saturating_add(g)
}

/// The number of decisions in a line.
pub fn decision_points(line: &str) -> (r: usize)
    ensures
        r == capped(points_in(line@)),
{
    count_points(chars_of(line).as_slice())
}

fn code_line(line: &[char]) -> (r: bool)
    ensures
        r == is_code(line@),
{
    let t = trim(line);
    t.len() > 0 && !starts_with(t, "//") && !starts_with(t, "*") && !starts_with(t, "/*")
}

fn measure(entity: &EntityRecord, content: &str) -> (r: (usize, usize))
    requires
        entity.witness.start_line > 0,
        entity.witness.end_line >= entity.witness.start_line,
    ensures
        r.0 == code_lines(body_lines(content@, entity.witness.start_line as int, entity.witness.end_line as int)),
        r.1 == capped(
            1nat + points_of(body_lines(content@, entity.witness.start_line as int, entity.witness.end_line as int)),
        ),
{
    let ghost all = lines(content@);
    let ghost body = body_lines(content@, entity.witness.start_line as int, entity.witness.end_line as int);
    let list = lines_of(chars_of(content).as_slice());
    let start: usize = entity.witness.start_line as usize - 1;
    let end: usize = entity.witness.end_line as usize;
    assert(char_lists(list@) == all);
    assert(char_lists(list@).len() == list@.len());
    let mut loc: usize = 0;
    let mut complexity: usize = 1;
    let mut i: usize = start;
    proof {
        assert(body.take(0) =~= Seq::empty());
    }
    while i < end && i < list.len()
        invariant
            all == char_lists(list@),
            list@.len() == all.len(),
            start == entity.witness.start_line - 1,
            end == entity.witness.end_line,
            start < end,
            start <= i,
            i <= end,
            i <= list@.len() || i == start,
            body == body_lines(content@, entity.witness.start_line as int, entity.witness.end_line as int),
            all == lines(content@),
            loc <= i - start,
            i - start <= body.len(),
            loc == code_lines(body.take(i - start)),
            complexity == capped(1nat + points_of(body.take(i - start))),
        decreases list.len() - i,
    {
        let ghost k = i - start;
        assert(body[k] == all[i as int]);
        assert(all[i as int] == list@[i as int]@);
        assert(body.take(k + 1).drop_last() =~= body.take(k));
        if code_line(list[i].as_slice()) {
            loc = loc + 1;
        }
        complexity = complexity.saturating_add(count_points(list[i].as_slice()));
        i = i + 1;
    }
    assert(body.take(i - start) =~= body);
    (loc, complexity)
}

spec fn spot_views(v: Seq<Hotspot>) -> Seq<HotspotView> {
    v.map_values(|x: Hotspot| x@)
}

fn sort_spots(spots: Vec<Hotspot>) -> (r: Vec<Hotspot>)
    ensures
        spot_views(r@) == stable_sorted(spot_views(spots@), by_complexity()),
{
    let ghost le = |a: Hotspot, b: Hotspot| by_complexity()(a@, b@);
    let at_most = |a: &Hotspot, b: &Hotspot| -> (t: bool)
        ensures
            t == by_complexity()(a@, b@),
        { a.complexity > b.complexity || a.complexity == b.complexity && a.loc >= b.loc };
    proof {
        lemma_sorted_map(spots@, |x: Hotspot| x@, le, by_complexity());
    }
    sort_stable(spots, &at_most, Ghost(le))
}

/// The most complex methods.
pub fn hotspots(space_data: &SpaceData, source_files: &TextMap<String>, limit: usize) -> (r: Result<
    HotspotsResult,
    String,
>)
    ensures
        hotspots_result(r) == hotspots_in(space_data@, index_view(*source_files), limit),
{
    let ghost sources = index_view(*source_files);
    assert(sources.len() == source_files.entries().len());
    if source_files.len() == 0 {
        return Err("hotspots requires source files (start the server with --source-root)".to_owned());
    }
    let ghost all = entity_views(space_data.entities@);
    let mut spots: Vec<Hotspot> = Vec::new();
    let mut i: usize = 0;
    assert(spot_views(spots@) =~= all_measured(all.take(0), sources));
    while i < space_data.entities.len()
        invariant
            i <= space_data.entities@.len(),
            sources == index_view(*source_files),
            all == entity_views(space_data.entities@),
            spot_views(spots@) == all_measured(all.take(i as int), sources),
        decreases space_data.entities.len() - i,
    {
        let e = &space_data.entities[i];
        assert(all[i as int] == e@);
        assert(all.take(i + 1).drop_last() =~= all.take(i as int));
        let callable: bool = match e.entity_type {
            JavaEntityType::Method => true,
            JavaEntityType::Constructor => true,
            _ => false,
        };
        if callable && e.witness.start_line > 0 && e.witness.end_line >= e.witness.start_line {
            match entry_of(source_files, e.witness.file.as_str()) {
                Some(content) => {
                    let (loc, complexity) = measure(e, content.as_str());
                    let ghost before = spot_views(spots@);
                    let spot = Hotspot {
                        fqn: e.fqn.clone(),
                        file: e.witness.file.clone(),
                        start_line: e.witness.start_line,
                        end_line: e.witness.end_line,
                        loc,
                        complexity,
                    };
                    let ghost sv = spot@;
                    spots.push(spot);
                    assert(spot_views(spots@) =~= before.push(sv));
                },
                None => {},
            }
        }
        i = i + 1;
    }
    assert(all.take(i as int) =~= all);
    assert(all == space_data@.entities);
    let analyzed: usize = spots.len();
    let mut sorted = sort_spots(spots);
    let ghost s = sorted@;
    proof {
        crate::order::lemma_stable_sorted(all_measured(all, sources), by_complexity());
    }
    if sorted.len() > limit {
        sorted.truncate(limit);
        assert(sorted@ =~= s.take(limit as int));
        assert(spot_views(sorted@) =~= spot_views(s).take(limit as int));
    }
    Ok(
        HotspotsResult {
            hotspots: sorted,
            methods_analyzed: analyzed,
            note: "Complexity is approximated from decision-point keywords (if/for/while/case/catch, &&, ||) in the method body. Use as a refactoring triage signal, not a metric of record.".to_owned(),
        },
    )
}

} // verus!
