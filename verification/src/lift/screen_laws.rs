//! The tables of a screen tell what is shown when.

use vstd::prelude::*;

use crate::lift::tag_extractor::{
    cluster_table, extracted, extraction, has_scriptlet, is_common, path_outcome, path_table, scriptlet_at,
    DecisionView, ExtractionView,
};
use crate::lift::tag_paths::{PathSetView, PathView};
use crate::lift::tag_scan::{kind_at, test_value, TagKind};
use crate::lift::tag_tree::{clusters_from, stripped, summary, ClusterView};
use crate::seqs::{lemma_filter_contains, lemma_push_contains};
use crate::text::{
    alphanumeric, decimal_text, find, find_char, is_space, joined, lemma_find, normalized, occurs_at, skip_space,
};
use crate::text_laws::{holds, law_joined_holds, lemma_holds_inside};

verus! {

/// The content tells a path from another: the path shows it, and some other
/// path does not.
pub open spec fn is_conditional(paths: Seq<PathView>, path: PathView, text: Seq<char>) -> bool {
    &&& path.rendered.contains(text)
    &&& exists|j: int| 0 <= j < paths.len() && !(#[trigger] paths[j]).rendered.contains(text)
}

/// The outcome of a path through a screen lists the content that tells it from
/// other paths: nothing else and all of it.
pub proof fn law_screen_outcome(paths: Seq<PathView>, path: PathView) -> (parts: Seq<Seq<char>>)
    ensures
        forall|text: Seq<char>| #[trigger] parts.contains(text) <==> is_conditional(paths, path, text),
        parts.len() == 0 ==> path_outcome(paths, path.rendered) == "(no conditional content)"@,
        parts.len() > 0 ==> path_outcome(paths, path.rendered) == "renders: "@ + joined(parts, " ⊕ "@),
{
    let p = |t: Seq<char>| !is_common(paths, t);
    let parts = path.rendered.filter(p);
    lemma_filter_contains(path.rendered, p);
    assert forall|text: Seq<char>| #[trigger] parts.contains(text) <==> is_conditional(paths, path, text) by {
        assert(parts.contains(text) <==> path.rendered.contains(text) && p(text));
        if !is_common(paths, text) {
            let j = choose|j: int| 0 <= j < paths.len() && !(#[trigger] paths[j]).rendered.contains(text);
            assert(!paths[j].rendered.contains(text));
        }
    }
    parts
}

/// The outcome of a path through a screen names every content that some other
/// path does not show.
pub proof fn law_screen_outcome_names(set: PathSetView, i: int, j: int, text: Seq<char>)
    requires
        0 <= i < set.paths.len(),
        0 <= j < set.paths.len(),
        set.paths[i].rendered.contains(text),
        !set.paths[j].rendered.contains(text),
    ensures
        holds(path_table(set).rows[i].outcome, text),
{
    let parts = law_screen_outcome(set.paths, set.paths[i]);
    assert(is_conditional(set.paths, set.paths[i], text));
    assert(parts.contains(text));
    let k = choose|k: int| 0 <= k < parts.len() && parts[k] == text;
    law_joined_holds(parts, " ⊕ "@, k);
    let all = joined(parts, " ⊕ "@);
    let e = Seq::<char>::empty();
    lemma_holds_inside("renders: "@, all, e, text);
    assert("renders: "@ + all + e =~= "renders: "@ + all);
}

/// A scriptlet that decides something opens at `i`: white space may stand
/// before its first word, which is at `k`.
pub open spec fn opens_scriptlet(s: Seq<char>, i: int, k: int) -> bool {
    &&& occurs_at(s, "<%"@, i)
    &&& i + 2 <= k <= s.len()
    &&& forall|j: int| i + 2 <= j < k ==> is_space(#[trigger] s[j])
    &&& k < s.len() ==> !is_space(s[k])
    &&& occurs_at(s, "if"@, k) || occurs_at(s, "else"@, k) || occurs_at(s, "} else"@, k)
}

proof fn lemma_skip(s: Seq<char>, i: int)
    requires
        0 <= i <= s.len(),
    ensures
        i <= skip_space(s, i) <= s.len(),
        skip_space(s, i) < s.len() ==> !is_space(s[skip_space(s, i)]),
        forall|j: int| i <= j < skip_space(s, i) ==> is_space(#[trigger] s[j]),
    decreases s.len() - i,
{
    if i < s.len() && is_space(s[i]) {
        lemma_skip(s, i + 1);
    }
}

proof fn lemma_skip_to(s: Seq<char>, i: int, k: int)
    requires
        0 <= i <= k <= s.len(),
        forall|j: int| i <= j < k ==> is_space(#[trigger] s[j]),
        k < s.len() ==> !is_space(s[k]),
    ensures
        skip_space(s, i) == k,
    decreases k - i,
{
    if i < k {
        lemma_skip_to(s, i + 1, k);
    }
}

/// A table is incomplete exactly when a scriptlet that decides something opens
/// inside the tags.
pub proof fn law_scriptlets(s: Seq<char>, start: int, end: int)
    ensures
        has_scriptlet(s, start, end) <==> exists|i: int, k: int| start <= i < end && #[trigger] opens_scriptlet(s, i, k),
{
    reveal_strlit("<%");
    if has_scriptlet(s, start, end) {
        let i = choose|i: int| start <= i < end && #[trigger] scriptlet_at(s, i);
        lemma_skip(s, i + 2);
        assert(opens_scriptlet(s, i, skip_space(s, i + 2)));
    }
    if exists|i: int, k: int| start <= i < end && #[trigger] opens_scriptlet(s, i, k) {
        let (i, k) = choose|i: int, k: int| start <= i < end && #[trigger] opens_scriptlet(s, i, k);
        lemma_skip_to(s, i + 2, k);
        assert(scriptlet_at(s, i));
    }
}

/// The name of a tag ends there.
pub open spec fn is_tag_name(s: Seq<char>, name: Seq<char>, i: int) -> bool {
    occurs_at(s, name, i) && (i + name.len() < s.len() ==> !alphanumeric(s[i + name.len()]))
}

/// The tags that decide what is shown, by their names.
pub proof fn law_tag_names(s: Seq<char>, i: int)
    ensures
        kind_at(s, i) == Some(TagKind::If) <==> is_tag_name(s, "c:if"@, i),
        kind_at(s, i) == Some(TagKind::Choose) <==> is_tag_name(s, "c:choose"@, i),
        kind_at(s, i) == Some(TagKind::When) <==> is_tag_name(s, "c:when"@, i),
        kind_at(s, i) == Some(TagKind::Otherwise) <==> is_tag_name(s, "c:otherwise"@, i),
{
    reveal_strlit("c:if");
    reveal_strlit("c:choose");
    reveal_strlit("c:when");
    reveal_strlit("c:otherwise");
    if occurs_at(s, "c:if"@, i) {
        assert(s.subrange(i, i + 4)[2] == s[i + 2]);
    }
    if occurs_at(s, "c:choose"@, i) {
        assert(s.subrange(i, i + 8)[2] == s[i + 2]);
    }
    if occurs_at(s, "c:when"@, i) {
        assert(s.subrange(i, i + 6)[2] == s[i + 2]);
    }
    if occurs_at(s, "c:otherwise"@, i) {
        assert(s.subrange(i, i + 11)[2] == s[i + 2]);
    }
}

proof fn lemma_char_at(s: Seq<char>, c: char, from: int, e: int)
    requires
        0 <= from <= e < s.len(),
        s[e] == c,
        forall|j: int| from <= j < e ==> #[trigger] s[j] != c,
    ensures
        find_char(s, c, from) == Some(e),
    decreases e - from,
{
    if from < e {
        assert(s[from] != c);
        lemma_char_at(s, c, from + 1, e);
    }
}

/// The condition of a tag is what stands between the quotes behind `test=`.
pub proof fn law_test_value(attrs: Seq<char>, before: Seq<char>, quote: char, value: Seq<char>, after: Seq<char>)
    requires
        quote == '"' || quote == '\'',
        !value.contains(quote),
        attrs == before + "test="@ + seq![quote] + value + seq![quote] + after,
        forall|j: int| 0 <= j < before.len() ==> !#[trigger] occurs_at(attrs, "test"@, j),
    ensures
        test_value(attrs) == Ok::<Seq<char>, Seq<char>>(normalized(value)),
{
    reveal_strlit("test=");
    reveal_strlit("test");
    let n = before.len() as int;
    assert(attrs.subrange(n, n + 4) =~= "test"@);
    assert(occurs_at(attrs, "test"@, n));
    lemma_find(attrs, "test"@, 0);
    let i = find(attrs, "test"@, 0)->Some_0;
    assert(i == n);
    assert(attrs[n + 4] == '=' && attrs[n + 5] == quote);
    lemma_not_space();
    lemma_skip_to(attrs, n + 4, n + 4);
    lemma_skip_to(attrs, n + 5, n + 5);
    let e = n + 6 + value.len();
    assert(attrs[e] == quote);
    assert forall|j: int| n + 6 <= j < e implies #[trigger] attrs[j] != quote by {
        assert(attrs[j] == value[j - n - 6]);
        assert(value.contains(value[j - n - 6]));
    }
    lemma_char_at(attrs, quote, n + 6, e);
    assert(attrs.subrange(n + 6, e) =~= value);
}

proof fn lemma_not_space()
    ensures
        !is_space('='),
        !is_space('"'),
        !is_space('\''),
{
}

/// Every group of tags is reported with its table, or skipped with the reason;
/// a group without a condition is neither.
pub open spec fn is_reported(s: Seq<char>, c: ClusterView, found: ExtractionView) -> bool {
    match cluster_table(c.arms) {
        Ok(None) => true,
        Ok(Some(table)) => found.clusters.contains(
            DecisionView { start_line: c.line, table, incomplete: has_scriptlet(s, c.start, c.end) },
        ),
        Err(reason) => found.skipped.contains(("line "@ + decimal_text(c.line), reason)),
    }
}

proof fn lemma_extracted(s: Seq<char>, clusters: Seq<ClusterView>, i: int)
    requires
        0 <= i < clusters.len(),
    ensures
        is_reported(s, clusters[i], extracted(s, clusters)),
    decreases clusters.len(),
{
    let before = extracted(s, clusters.drop_last());
    let all = extracted(s, clusters);
    if all.clusters.len() > before.clusters.len() {
        lemma_push_contains(before.clusters, all.clusters.last());
        assert(all.clusters =~= before.clusters.push(all.clusters.last()));
    }
    if all.skipped.len() > before.skipped.len() {
        lemma_push_contains(before.skipped, all.skipped.last());
        assert(all.skipped =~= before.skipped.push(all.skipped.last()));
    }
    if i < clusters.len() - 1 {
        lemma_extracted(s, clusters.drop_last(), i);
    }
}

/// Every group of tags of a screen is accounted for, and where the tags do not
/// fit together, the screen is skipped with the reason.
pub proof fn law_screen_reported(s: Seq<char>, i: int)
    ensures
        match clusters_from(s, 0) {
            Ok(clusters) => 0 <= i < clusters.len() ==> is_reported(s, clusters[i], extraction(s)),
            Err(reason) => extraction(s).clusters.len() == 0 && extraction(s).skipped == seq![("(file)"@, reason)],
        },
{
    if let Ok(clusters) = clusters_from(s, 0) {
        if 0 <= i < clusters.len() {
            lemma_extracted(s, clusters, i);
        }
    }
}

/// Nothing in the text opens or closes a tag.
pub open spec fn is_bare(s: Seq<char>) -> bool {
    !s.contains('<') && !s.contains('>')
}

proof fn lemma_stripped_on(s: Seq<char>, more: Seq<char>)
    requires
        is_bare(more),
    ensures
        stripped(s + more).0 == stripped(s).0,
        stripped(s + more).1 == if stripped(s).0 {
            stripped(s).1
        } else {
            stripped(s).1 + more
        },
    decreases more.len(),
{
    if more.len() == 0 {
        assert(s + more =~= s);
        assert(stripped(s).1 + more =~= stripped(s).1);
    } else {
        let front = more.drop_last();
        let c = more.last();
        assert(more.contains(c));
        assert(is_bare(front)) by {
            if front.contains('<') {
                let i = choose|i: int| 0 <= i < front.len() && front[i] == '<';
                assert(more[i] == '<');
            }
            if front.contains('>') {
                let i = choose|i: int| 0 <= i < front.len() && front[i] == '>';
                assert(more[i] == '>');
            }
        }
        lemma_stripped_on(s, front);
        assert((s + more).drop_last() =~= s + front);
        assert((s + more).last() == c);
        assert((stripped(s).1 + front).push(c) =~= stripped(s).1 + more);
    }
}

/// What is shown of a text: a tag leaves a blank, and what stands around it
/// stays as it is.
pub proof fn law_stripped(before: Seq<char>, tag: Seq<char>, after: Seq<char>)
    requires
        is_bare(before),
        is_bare(tag),
        is_bare(after),
    ensures
        stripped(before).1 == before,
        stripped(before + "<"@ + tag + ">"@ + after).1 == before + " "@ + after,
{
    reveal_strlit("<");
    reveal_strlit(">");
    reveal_strlit(" ");
    let none = Seq::<char>::empty();
    lemma_stripped_on(none, before);
    assert(none + before =~= before);
    let opened = before + "<"@;
    assert(opened.drop_last() =~= before && opened.last() == '<');
    lemma_stripped_on(opened, tag);
    let closed = opened + tag + ">"@;
    assert(closed.drop_last() =~= opened + tag && closed.last() == '>');
    assert(stripped(closed).1 =~= before + " "@);
    lemma_stripped_on(closed, after);
}

/// A text is shown with single blanks between its words, and cut where it is
/// long; a blank text is not shown.
pub proof fn law_summary(s: Seq<char>)
    ensures
        ({
            let text = normalized(stripped(s).1);
            &&& text.len() == 0 ==> summary(s) is None
            &&& 0 < text.len() <= 60 ==> summary(s) == Some(text)
            &&& text.len() > 60 ==> summary(s) == Some(text.take(60) + "…"@)
        }),
{
}

} // verus!
