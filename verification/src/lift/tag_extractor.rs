//! Extracts decision tables from JSP / tag-file conditional markup.
//!
//! Legacy JSP screens hold their display logic in JSTL conditionals:
//! `<c:if test="${...}">` and `<c:choose>/<c:when>/<c:otherwise>`. EL test
//! expressions are atomized by normalized text, `c:when` chains get
//! sequential else-if semantics, and the outcome of a path is the content it
//! renders (text summaries of the conditional bodies, with content common to
//! every path subtracted). Scriptlet conditionals (`<% if ... %>`) cannot be
//! modeled and mark the extraction [`TagDecision::incomplete`].

use vstd::prelude::*;

use crate::lift::tag_paths::{walk_arms, walk_branches, PathSet, PathSetView, PathView, RenderPath};
use crate::lift::tag_tree::{
    arms_view, clusters_from, line_breaks, parse_clusters, Arms, ArmsView, Body, BodyView, Cluster, ClusterView,
};
use crate::logic::table::{Entry, TableView};
use crate::logic::{DecisionTable, Tri};
use crate::seqs::{lemma_filter_ends, lemma_filter_step};
use crate::text::{
    after_space, chars_of, contains_text, copy_texts, decimal, decimal_text, find_from, join, joined, lemma_find,
    occurs_at, skip_space, stands_at, texts,
};

verus! {

/// Decision table for one top-level conditional cluster in a JSP/tag file.
#[derive(Debug)]
pub struct TagDecision {
    /// 1-based line of the cluster's opening tag.
    pub start_line: u32,
    pub table: DecisionTable,
    /// Scriptlet conditionals (`<% if`) exist in the cluster; the table may
    /// miss display logic expressed there.
    pub incomplete: bool,
}

#[derive(Debug)]
pub struct TagExtraction {
    pub clusters: Vec<TagDecision>,
    /// Clusters that could not be extracted: (location, reason).
    pub skipped: Vec<(String, String)>,
}

pub struct TagExtractor;

/// A decision as mathematics.
#[verifier::ext_equal]
pub struct DecisionView {
    pub start_line: nat,
    pub table: TableView,
    pub incomplete: bool,
}

/// An extraction as mathematics.
#[verifier::ext_equal]
pub struct ExtractionView {
    pub clusters: Seq<DecisionView>,
    pub skipped: Seq<(Seq<char>, Seq<char>)>,
}

impl View for TagDecision {
    type V = DecisionView;

    open spec fn view(&self) -> DecisionView {
        DecisionView { start_line: self.start_line as nat, table: self.table@, incomplete: self.incomplete }
    }
}

impl View for TagExtraction {
    type V = ExtractionView;

    open spec fn view(&self) -> ExtractionView {
        ExtractionView {
            clusters: self.clusters@.map_values(|c: TagDecision| c@),
            skipped: self.skipped@.map_values(|p: (String, String)| (p.0@, p.1@)),
        }
    }
}

/// A scriptlet conditional stands at `i`.
pub open spec fn scriptlet_at(s: Seq<char>, i: int) -> bool {
    let k = skip_space(s, i + 2);
    occurs_at(s, "<%"@, i) && (occurs_at(s, "if"@, k) || occurs_at(s, "} else"@, k) || occurs_at(s, "else"@, k))
}

/// A scriptlet conditional stands inside the span.
pub open spec fn has_scriptlet(s: Seq<char>, start: int, end: int) -> bool {
    exists|i: int| start <= i < end && #[trigger] scriptlet_at(s, i)
}

/// Every path renders the text.
pub open spec fn is_common(paths: Seq<PathView>, text: Seq<char>) -> bool {
    forall|i: int| 0 <= i < paths.len() ==> (#[trigger] paths[i]).rendered.contains(text)
}

/// What a path renders that not every path renders.
pub open spec fn distinct_content(paths: Seq<PathView>, rendered: Seq<Seq<char>>) -> Seq<Seq<char>> {
    rendered.filter(|t: Seq<char>| !is_common(paths, t))
}

pub open spec fn path_outcome(paths: Seq<PathView>, rendered: Seq<Seq<char>>) -> Seq<char> {
    let distinct = distinct_content(paths, rendered);
    if distinct.len() == 0 {
        "(no conditional content)"@
    } else {
        "renders: "@ + joined(distinct, " ⊕ "@)
    }
}

/// The values of `n` conditions on a path; those it does not pin are open.
pub open spec fn row_inputs(conds: Seq<(usize, bool)>, n: nat) -> Seq<Tri>
    decreases conds.len(),
{
    if conds.len() == 0 {
        Seq::new(n, |i: int| Tri::Any)
    } else {
        let before = row_inputs(conds.drop_last(), n);
        let (id, value) = conds.last();
        if id < n {
            before.update(
                id as int,
                if value {
                    Tri::True
                } else {
                    Tri::False
                },
            )
        } else {
            before
        }
    }
}

/// The decision table of a set of paths: a row per path.
pub open spec fn path_table(set: PathSetView) -> TableView {
    TableView {
        variables: set.atoms,
        rows: set.paths.map_values(
            |p: PathView|
                Entry { when: row_inputs(p.conds, set.atoms.len()), outcome: path_outcome(set.paths, p.rendered) },
        ),
    }
}

/// The decision table of a cluster: none when it holds no condition.
pub open spec fn cluster_table(arms: ArmsView) -> Result<Option<TableView>, Seq<char>> {
    let start = PathSetView { atoms: Seq::empty(), paths: Seq::empty() };
    match walk_arms(arms, BodyView::End, start, Seq::empty(), Seq::empty(), Seq::empty()) {
        Err(e) => Err(e),
        Ok(set) => if set.atoms.len() == 0 {
            Ok(None)
        } else {
            Ok(Some(path_table(set)))
        },
    }
}

/// What is extracted from the clusters: their tables, and the reasons where there is none.
pub open spec fn extracted(s: Seq<char>, clusters: Seq<ClusterView>) -> ExtractionView
    decreases clusters.len(),
{
    if clusters.len() == 0 {
        ExtractionView { clusters: Seq::empty(), skipped: Seq::empty() }
    } else {
        let before = extracted(s, clusters.drop_last());
        let c = clusters.last();
        match cluster_table(c.arms) {
            Ok(None) => before,
            Ok(Some(table)) => ExtractionView {
                clusters: before.clusters.push(
                    DecisionView { start_line: c.line, table, incomplete: has_scriptlet(s, c.start, c.end) },
                ),
                skipped: before.skipped,
            },
            Err(reason) => ExtractionView {
                clusters: before.clusters,
                skipped: before.skipped.push(("line "@ + decimal_text(c.line), reason)),
            },
        }
    }
}

/// What is extracted from a source text.
pub open spec fn extraction(s: Seq<char>) -> ExtractionView {
    match clusters_from(s, 0) {
        Err(reason) => ExtractionView { clusters: Seq::empty(), skipped: seq![("(file)"@, reason)] },
        Ok(clusters) => extracted(s, clusters),
    }
}

pub proof fn lemma_row_inputs(conds: Seq<(usize, bool)>, n: nat)
    ensures
        row_inputs(conds, n).len() == n,
    decreases conds.len(),
{
    if conds.len() > 0 {
        lemma_row_inputs(conds.drop_last(), n);
    }
}

/// Every extracted table has a value for every condition in every row.
pub proof fn law_tables_complete(s: Seq<char>, k: int)
    requires
        0 <= k < extraction(s).clusters.len(),
    ensures
        extraction(s).clusters[k].table.wf(),
{
    if let Ok(clusters) = clusters_from(s, 0) {
        lemma_extracted_wf(s, clusters, k);
    }
}

proof fn lemma_extracted_wf(s: Seq<char>, clusters: Seq<ClusterView>, k: int)
    requires
        0 <= k < extracted(s, clusters).clusters.len(),
    ensures
        extracted(s, clusters).clusters[k].table.wf(),
    decreases clusters.len(),
{
    if clusters.len() > 0 {
        let before = extracted(s, clusters.drop_last());
        if k < before.clusters.len() {
            lemma_extracted_wf(s, clusters.drop_last(), k);
        } else {
            lemma_cluster_table(clusters.last().arms);
        }
    }
}

proof fn lemma_cluster_table(arms: ArmsView)
    ensures
        cluster_table(arms) matches Ok(Some(t)) ==> t.wf(),
{
    let start = PathSetView { atoms: Seq::empty(), paths: Seq::empty() };
    if let Ok(set) = walk_arms(arms, BodyView::End, start, Seq::empty(), Seq::empty(), Seq::empty()) {
        let t = path_table(set);
        assert forall|i: int| 0 <= i < t.rows.len() implies (#[trigger] t.rows[i]).when.len() == t.variables.len() by {
            lemma_row_inputs(set.paths[i].conds, set.atoms.len());
        }
    }
}

pub fn inputs_of(conds: &Vec<(usize, bool)>, n: usize) -> (r: Vec<Tri>)
    ensures
        r@ == row_inputs(conds@, n as nat),
{
    let mut r: Vec<Tri> = Vec::new();
    let mut i: usize = 0;
    while i < n
        invariant
            i <= n,
            r@ == Seq::new(i as nat, |i: int| Tri::Any),
        decreases n - i,
    {
        r.push(Tri::Any);
        i = i + 1;
        assert(r@ =~= Seq::new(i as nat, |i: int| Tri::Any));
    }
    let mut k: usize = 0;
    assert(conds@.take(0) =~= Seq::empty());
    while k < conds.len()
        invariant
            k <= conds.len(),
            r@ == row_inputs(conds@.take(k as int), n as nat),
            r@.len() == n,
        decreases conds.len() - k,
    {
        let (id, value) = conds[k];
        assert(conds@.take(k + 1).drop_last() =~= conds@.take(k as int));
        if id < n {
            r.set(
                id,
                if value {
                    Tri::True
                } else {
                    Tri::False
                },
            );
        }
        k = k + 1;
    }
    assert(conds@.take(k as int) =~= conds@);
    r
}

fn common(paths: &Vec<RenderPath>, text: &str, Ghost(views): Ghost<Seq<PathView>>) -> (r: bool)
    requires
        views == paths@.map_values(|p: RenderPath| p@),
    ensures
        r == is_common(views, text@),
{
    let mut i: usize = 0;
    while i < paths.len()
        invariant
            i <= paths.len(),
            views == paths@.map_values(|p: RenderPath| p@),
            forall|k: int| 0 <= k < i ==> (#[trigger] views[k]).rendered.contains(text@),
        decreases paths.len() - i,
    {
        assert(views[i as int] == paths@[i as int]@);
        if !contains_text(paths[i].rendered.as_slice(), text) {
            return false;
        }
        i = i + 1;
    }
    true
}

fn outcome_of(paths: &Vec<RenderPath>, rendered: &Vec<String>, Ghost(views): Ghost<Seq<PathView>>) -> (r: String)
    requires
        views == paths@.map_values(|p: RenderPath| p@),
    ensures
        r@ == path_outcome(views, texts(rendered@)),
{
    let ghost p = |t: Seq<char>| !is_common(views, t);
    let ghost all = texts(rendered@);
    let mut distinct: Vec<String> = Vec::new();
    let mut i: usize = 0;
    proof {
        lemma_filter_ends(all, p);
        assert(texts(distinct@) =~= Seq::empty());
    }
    while i < rendered.len()
        invariant
            i <= rendered.len(),
            views == paths@.map_values(|p: RenderPath| p@),
            p == |t: Seq<char>| !is_common(views, t),
            all == texts(rendered@),
            texts(distinct@) == all.take(i as int).filter(p),
        decreases rendered.len() - i,
    {
        proof {
            lemma_filter_step(all, p, i as int);
        }
        if !common(paths, rendered[i].as_str(), Ghost(views)) {
            let ghost before = distinct@;
            distinct.push(rendered[i].clone());
            assert(texts(distinct@) =~= texts(before).push(all[i as int]));
        }
        i = i + 1;
    }
    proof {
        lemma_filter_ends(all, p);
        assert(texts(distinct@).len() == distinct@.len());
    }
    if distinct.len() == 0 {
        "(no conditional content)".to_owned()
    } else {
        let mut r = "renders: ".to_owned();
        r.append(join(distinct.as_slice(), " ⊕ ").as_str());
        r
    }
}

/// What building a table returns.
spec fn table_result(r: Result<Option<DecisionTable>, String>) -> Result<Option<TableView>, Seq<char>> {
    match r {
        Ok(Some(t)) => Ok(Some(t@)),
        Ok(None) => Ok(None),
        Err(e) => Err(e@),
    }
}

/// Enumerate render paths through a cluster and build its decision table.
/// There is none when the cluster contains no conditions.
fn build_table(arms: &Arms) -> (r: Result<Option<DecisionTable>, String>)
    ensures
        table_result(r) == cluster_table(arms_view(*arms)),
        r matches Ok(Some(t)) ==> t@.wf(),
{
    let start = PathSet { atoms: Vec::new(), paths: Vec::new() };
    let conds: Vec<(usize, bool)> = Vec::new();
    let rendered: Vec<String> = Vec::new();
    let prior: Vec<String> = Vec::new();
    assert(texts(rendered@) =~= Seq::empty());
    assert(start@ =~= PathSetView { atoms: Seq::empty(), paths: Seq::empty() });
    let set = match walk_branches(arms, &Body::End, start, conds, rendered, prior) {
        Err(e) => {
            return Err(e);
        },
        Ok(set) => set,
    };
    let ghost view = set@;
    if set.atoms.len() == 0 {
        return Ok(None);
    }
    let ghost rows = path_table(view).rows;
    let mut table = DecisionTable::new(copy_texts(set.atoms.as_slice()));
    let mut i: usize = 0;
    while i < set.paths.len()
        invariant
            i <= set.paths.len(),
            view == set@,
            rows == path_table(view).rows,
            table@.wf(),
            table@.variables == view.atoms,
            table@.rows == rows.take(i as int),
        decreases set.paths.len() - i,
    {
        let path = &set.paths[i];
        assert(view.paths[i as int] == path@);
        let outcome = outcome_of(&set.paths, &path.rendered, Ghost(view.paths));
        let inputs = inputs_of(&path.conds, set.atoms.len());
        proof {
            lemma_row_inputs(path.conds@, view.atoms.len());
        }
        let added = table.add_row(inputs, outcome.as_str());
        assert(added is Ok);
        i = i + 1;
        assert(table@.rows =~= rows.take(i as int));
    }
    assert(table@ =~= path_table(view));
    Ok(Some(table))
}

/// The positions of the scriptlet conditionals.
fn scriptlet_conditional_offsets(s: &[char]) -> (r: Vec<usize>)
    ensures
        forall|i: int| #[trigger] scriptlet_at(s@, i) <==> exists|k: int| 0 <= k < r@.len() && r@[k] == i,
{
    let n: usize = s.len();
    let mut r: Vec<usize> = Vec::new();
    let mut pos: usize = 0;
    proof {
        reveal_strlit("<%");
    }
    while pos < n
        invariant
            pos <= n == s@.len(),
            "<%"@.len() == 2,
            forall|i: int|
                #![trigger scriptlet_at(s@, i)]
                i < pos ==> (scriptlet_at(s@, i) <==> exists|k: int| 0 <= k < r@.len() && r@[k] == i),
            forall|k: int| 0 <= k < r@.len() ==> r@[k] < pos,
        decreases n - pos,
    {
        let ghost r0 = r@;
        proof {
            lemma_find(s@, "<%"@, pos as int);
        }
        match find_from(s, "<%", pos) {
            None => {
                proof {
                    assert forall|i: int| #![trigger scriptlet_at(s@, i)] i < n implies (scriptlet_at(s@, i)
                        <==> exists|k: int| 0 <= k < r@.len() && r@[k] == i) by {
                        if i >= pos {
                            assert(!occurs_at(s@, "<%"@, i));
                            if exists|k: int| 0 <= k < r@.len() && r@[k] == i {
                                let k = choose|k: int| 0 <= k < r@.len() && r@[k] == i;
                                assert(r@[k] < pos);
                            }
                        }
                    }
                }
                pos = n;
            },
            Some(at) => {
                let k: usize = after_space(s, at + 2);
                if stands_at(s, "if", k) || stands_at(s, "} else", k) || stands_at(s, "else", k) {
                    r.push(at);
                    assert(scriptlet_at(s@, at as int));
                }
                proof {
                    assert forall|i: int| #![trigger scriptlet_at(s@, i)] i < at + 1 implies (scriptlet_at(s@, i)
                        <==> exists|k: int| 0 <= k < r@.len() && r@[k] == i) by {
                        if i < pos {
                            if exists|k: int| 0 <= k < r0.len() && r0[k] == i {
                                let k = choose|k: int| 0 <= k < r0.len() && r0[k] == i;
                                assert(r@[k] == i);
                            }
                            if exists|k: int| 0 <= k < r@.len() && r@[k] == i {
                                let k = choose|k: int| 0 <= k < r@.len() && r@[k] == i;
                                assert(r0[k] == i);
                            }
                        } else if i == at {
                            if scriptlet_at(s@, i) {
                                assert(r@[r0.len() as int] == i);
                            } else {
                                assert(r@ == r0);
                            }
                        } else {
                            assert(!occurs_at(s@, "<%"@, i));
                            if exists|k: int| 0 <= k < r@.len() && r@[k] == i {
                                let k = choose|k: int| 0 <= k < r@.len() && r@[k] == i;
                                assert(k < r0.len());
                            }
                        }
                    }
                }
                pos = at + 1;
            },
        }
    }
    proof {
        assert forall|i: int| #[trigger] scriptlet_at(s@, i) <==> exists|k: int| 0 <= k < r@.len() && r@[k] == i by {
            if i >= s@.len() {
                assert(!occurs_at(s@, "<%"@, i));
            }
        }
    }
    r
}

fn any_inside(offsets: &Vec<usize>, start: usize, end: usize) -> (r: bool)
    ensures
        r == exists|k: int| 0 <= k < offsets@.len() && start <= #[trigger] offsets@[k] < end,
{
    let mut i: usize = 0;
    while i < offsets.len()
        invariant
            i <= offsets.len(),
            forall|k: int| 0 <= k < i ==> !(start <= #[trigger] offsets@[k] < end),
        decreases offsets.len() - i,
    {
        if start <= offsets[i] && offsets[i] < end {
            return true;
        }
        i = i + 1;
    }
    false
}

impl TagExtractor {
    pub fn new() -> (r: Self)
        ensures
            r == TagExtractor,
    {
        Self
    }

    pub fn extract(&self, source: &str) -> (r: TagExtraction)
        requires
            line_breaks(source@) < u32::MAX,
        ensures
            r@ == extraction(source@),
            forall|k: int| 0 <= k < r.clusters@.len() ==> (#[trigger] r.clusters@[k]).table@.wf(),
    {
        let s = chars_of(source);
        let offsets = scriptlet_conditional_offsets(s.as_slice());
        let mut result = TagExtraction { clusters: Vec::new(), skipped: Vec::new() };
        let clusters = match parse_clusters(s.as_slice()) {
            Err(reason) => {
                result.skipped.push(("(file)".to_owned(), reason));
                assert(result@ =~= extraction(source@));
                return result;
            },
            Ok(clusters) => clusters,
        };
        let ghost views = clusters@.map_values(|c: Cluster| c@);
        let mut i: usize = 0;
        assert(result@ =~= extracted(s@, views.take(0)));
        while i < clusters.len()
            invariant
                i <= clusters.len(),
                views == clusters@.map_values(|c: Cluster| c@),
                forall|i: int| #[trigger]
                    scriptlet_at(s@, i) <==> exists|k: int| 0 <= k < offsets@.len() && offsets@[k] == i,
                result@ == extracted(s@, views.take(i as int)),
                forall|k: int| 0 <= k < result.clusters@.len() ==> (#[trigger] result.clusters@[k]).table@.wf(),
            decreases clusters.len() - i,
        {
            let cluster = &clusters[i];
            let ghost before = result@;
            assert(views[i as int] == cluster@);
            assert(views.take(i + 1).drop_last() =~= views.take(i as int));
            let incomplete = any_inside(&offsets, cluster.start, cluster.end);
            proof {
                let inside = has_scriptlet(s@, cluster.start as int, cluster.end as int);
                if incomplete {
                    let k = choose|k: int|
                        0 <= k < offsets@.len() && cluster.start <= #[trigger] offsets@[k] < cluster.end;
                    assert(scriptlet_at(s@, offsets@[k] as int));
                }
                if inside {
                    let i = choose|i: int| cluster.start <= i < cluster.end && #[trigger] scriptlet_at(s@, i);
                    let k = choose|k: int| 0 <= k < offsets@.len() && offsets@[k] == i;
                    assert(offsets@[k] == i);
                }
                assert(incomplete == inside);
            }
            match build_table(&cluster.arms) {
                Ok(Some(table)) => {
                    let decision = TagDecision { start_line: cluster.line, table, incomplete };
                    result.clusters.push(decision);
                    assert(result@.clusters =~= before.clusters.push(decision@));
                    assert(result@.skipped =~= before.skipped);
                },
                Ok(None) => {},
                Err(reason) => {
                    let mut place = "line ".to_owned();
                    place.append(decimal(cluster.line as u128).as_str());
                    let pair = (place, reason);
                    result.skipped.push(pair);
                    assert(result@.skipped =~= before.skipped.push((pair.0@, pair.1@)));
                    assert(result@.clusters =~= before.clusters);
                },
            }
            i = i + 1;
        }
        assert(views.take(i as int) =~= views);
        result
    }
}

impl Default for TagExtractor {
    fn default() -> (r: Self)
        ensures
            r == TagExtractor,
    {
        Self::new()
    }
}

impl Default for TagExtraction {
    fn default() -> (r: Self)
        ensures
            r@ == (ExtractionView { clusters: Seq::empty(), skipped: Seq::empty() }),
    {
        let r = TagExtraction { clusters: Vec::new(), skipped: Vec::new() };
        assert(r@ =~= ExtractionView { clusters: Seq::empty(), skipped: Seq::empty() });
        r
    }
}

} // verus!
