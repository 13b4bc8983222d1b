//! Structural invariant checks: grounding, consistency, reachability, and acyclicity.

use vstd::prelude::*;

use crate::lift::lift_laws::{is_witnessed, law_cells_are_witnessed};
use crate::lift::lifter::{lifted, SourceView};
use crate::lines::{opt_text, trimmed};
use crate::model::graph::{Cell, CellView, Incidence, LinkView};
use crate::model::space_data::{SpaceData, SpaceView};
use crate::model::store::{
    cycles, distance, lemma_shortest, lemma_tight, shortest, simple_cycles, store_view, text_lists, valid_id, Direction,
    StoreView,
};
use crate::query::reach::{edge_views, reachable_from, reached};
use crate::query::resolve::{cell_views, cell_with, find_cell};
use crate::text::{join, joined, same, texts};

verus! {

#[derive(Debug, Clone, Copy, PartialEq, Eq, Structural)]
pub enum ViolationSeverity {
    Error,
    Warning,
}

#[derive(Debug, Clone)]
pub struct InvariantViolation {
    pub invariant_name: String,
    pub cell_id: Option<String>,
    pub message: String,
    pub severity: ViolationSeverity,
}

#[verifier::ext_equal]
pub struct ViolationView {
    pub invariant_name: Seq<char>,
    pub cell_id: Option<Seq<char>>,
    pub message: Seq<char>,
    pub severity: ViolationSeverity,
}

impl View for InvariantViolation {
    type V = ViolationView;

    open spec fn view(&self) -> ViolationView {
        ViolationView {
            invariant_name: self.invariant_name@,
            cell_id: opt_text(self.cell_id),
            message: self.message@,
            severity: self.severity,
        }
    }
}

pub open spec fn violation_views(v: Seq<InvariantViolation>) -> Seq<ViolationView> {
    v.map_values(|x: InvariantViolation| x@)
}

/// A check of a space.
pub trait InvariantCheck {
    /// What the check is called.
    spec fn title(&self) -> Seq<char>;

    /// What the check finds in a space with its graph store.
    spec fn found(&self, space: SpaceView, store: Option<StoreView>) -> Seq<ViolationView>;

    fn name(&self) -> (r: &str)
        ensures
            r@ == self.title(),
    ;

    fn check(&self, space_data: &SpaceData) -> (r: Vec<InvariantViolation>)
        ensures
            violation_views(r@) == self.found(space_data@, space_data.stored()),
    ;
}

/// Every cell says where it comes from.
pub struct GroundingCheck;

/// Contradictions become obstructions when derivations are fused, so a space
/// has none.
pub struct ConsistencyCheck;

/// Every cell is connected with the first one.
pub struct ReachabilityCheck;

/// No type extends itself.
pub struct AcyclicityCheck;

/// A cell's label in messages.
pub open spec fn label_of(c: CellView) -> Seq<char> {
    match c.label {
        Some(l) => l,
        None => "?"@,
    }
}

fn cell_label(c: &Cell) -> (r: String)
    ensures
        r@ == label_of(c@),
{
    match &c.label {
        Some(l) => l.clone(),
        None => "?".to_owned(),
    }
}

/// A violation at a cell, whose message names it.
pub open spec fn violation_at(
    name: Seq<char>,
    c: CellView,
    says: Seq<char>,
    severity: ViolationSeverity,
) -> ViolationView {
    ViolationView {
        invariant_name: name,
        cell_id: Some(c.id),
        message: "Cell '"@ + label_of(c) + "' "@ + says,
        severity,
    }
}

fn report(found: &mut Vec<InvariantViolation>, name: &str, c: &Cell, says: &str, severity: ViolationSeverity)
    ensures
        violation_views(final(found)@) == violation_views(old(found)@).push(
            violation_at(name@, c@, says@, severity),
        ),
{
    let ghost before = violation_views(found@);
    let mut message = "Cell '".to_owned();
    message.append(cell_label(c).as_str());
    message.append("' ");
    message.append(says);
    let item = InvariantViolation {
        invariant_name: name.to_owned(),
        cell_id: Some(c.id.clone()),
        message,
        severity,
    };
    let ghost iv = item@;
    assert(iv == violation_at(name@, c@, says@, severity));
    found.push(item);
    assert(violation_views(found@) =~= before.push(iv));
}

/// The cells that do not say where they come from.
pub open spec fn ungrounded(cells: Seq<CellView>) -> Seq<ViolationView>
    decreases cells.len(),
{
    if cells.len() == 0 {
        Seq::empty()
    } else {
        let before = ungrounded(cells.drop_last());
        let c = cells.last();
        match c.provenance {
            None => before.push(
                violation_at("grounding"@, c, "has no provenance (witness)"@, ViolationSeverity::Error),
            ),
            Some(p) => if p.uri is None {
                before.push(
                    violation_at("grounding"@, c, "provenance has no source URI"@, ViolationSeverity::Warning),
                )
            } else {
                before
            },
        }
    }
}

impl InvariantCheck for GroundingCheck {
    open spec fn title(&self) -> Seq<char> {
        "grounding"@
    }

    open spec fn found(&self, space: SpaceView, store: Option<StoreView>) -> Seq<ViolationView> {
        ungrounded(space.cells)
    }

    fn name(&self) -> (r: &str) {
        "grounding"
    }

    fn check(&self, space_data: &SpaceData) -> (r: Vec<InvariantViolation>) {
        let ghost all = space_data@.cells;
        let mut r: Vec<InvariantViolation> = Vec::new();
        let mut i: usize = 0;
        assert(violation_views(r@) =~= ungrounded(all.take(0)));
        while i < space_data.cells.len()
            invariant
                i <= space_data.cells@.len(),
                all == space_data@.cells,
                violation_views(r@) == ungrounded(all.take(i as int)),
            decreases space_data.cells.len() - i,
        {
            let c = &space_data.cells[i];
            assert(all[i as int] == c@);
            assert(all.take(i + 1).drop_last() =~= all.take(i as int));
            match &c.provenance {
                None => {
                    report(&mut r, "grounding", c, "has no provenance (witness)", ViolationSeverity::Error);
                },
                Some(p) => {
                    if p.uri.is_none() {
                        report(&mut r, "grounding", c, "provenance has no source URI", ViolationSeverity::Warning);
                    }
                },
            }
            i = i + 1;
        }
        assert(all.take(i as int) =~= all);
        r
    }
}

impl InvariantCheck for ConsistencyCheck {
    open spec fn title(&self) -> Seq<char> {
        "consistency"@
    }

    open spec fn found(&self, space: SpaceView, store: Option<StoreView>) -> Seq<ViolationView> {
        Seq::empty()
    }

    fn name(&self) -> (r: &str) {
        "consistency"
    }

    fn check(&self, _space_data: &SpaceData) -> (r: Vec<InvariantViolation>) {
        let r: Vec<InvariantViolation> = Vec::new();
        assert(violation_views(r@) =~= Seq::empty());
        r
    }
}

/// The store connects two cells, over relations of any type in any direction.
pub open spec fn connected(store: StoreView, space: Seq<char>, from: Seq<char>, to: Seq<char>) -> bool {
    valid_id(space) && valid_id(from) && valid_id(to) && store.owns(trimmed(space), trimmed(from)) && store.owns(
        trimmed(space),
        trimmed(to),
    ) && shortest(
        store.links,
        trimmed(space),
        Direction::Both,
        Seq::empty(),
        trimmed(from),
        trimmed(to),
        None,
    ) is Some
}

/// The cells among the first ones that the store does not connect with the root.
pub open spec fn cut_off_in_store(
    store: StoreView,
    space: Seq<char>,
    root: Seq<char>,
    cells: Seq<CellView>,
) -> Seq<ViolationView>
    decreases cells.len(),
{
    if cells.len() == 0 {
        Seq::empty()
    } else {
        let before = cut_off_in_store(store, space, root, cells.drop_last());
        let c = cells.last();
        if c.id == root || connected(store, space, root, c.id) {
            before
        } else {
            before.push(
                violation_at(
                    "reachability"@,
                    c,
                    "is unreachable from the space root (HG engine)"@,
                    ViolationSeverity::Warning,
                ),
            )
        }
    }
}

/// The relations as edges in both directions.
pub open spec fn both_ways(links: Seq<LinkView>) -> Seq<(Seq<char>, Seq<char>)>
    decreases links.len(),
{
    if links.len() == 0 {
        Seq::empty()
    } else {
        both_ways(links.drop_last()).push((links.last().from, links.last().to)).push(
            (links.last().to, links.last().from),
        )
    }
}

/// The cells among the first ones that are not in the list.
pub open spec fn cut_off(visited: Seq<Seq<char>>, cells: Seq<CellView>) -> Seq<ViolationView>
    decreases cells.len(),
{
    if cells.len() == 0 {
        Seq::empty()
    } else {
        let before = cut_off(visited, cells.drop_last());
        let c = cells.last();
        if visited.contains(c.id) {
            before
        } else {
            before.push(
                violation_at(
                    "reachability"@,
                    c,
                    "is unreachable from the space root"@,
                    ViolationSeverity::Warning,
                ),
            )
        }
    }
}

fn collect_edges(links: &Vec<Incidence>) -> (r: Vec<(String, String)>)
    ensures
        edge_views(r@) == both_ways(links@.map_values(|i: Incidence| i@)),
{
    let ghost all = links@.map_values(|i: Incidence| i@);
    let mut r: Vec<(String, String)> = Vec::new();
    let mut i: usize = 0;
    assert(edge_views(r@) =~= both_ways(all.take(0)));
    while i < links.len()
        invariant
            i <= links@.len(),
            all == links@.map_values(|i: Incidence| i@),
            edge_views(r@) == both_ways(all.take(i as int)),
        decreases links.len() - i,
    {
        let l = &links[i];
        assert(all[i as int] == l@);
        assert(all.take(i + 1).drop_last() =~= all.take(i as int));
        let ghost before = edge_views(r@);
        r.push((l.from_cell_id.clone(), l.to_cell_id.clone()));
        r.push((l.to_cell_id.clone(), l.from_cell_id.clone()));
        assert(edge_views(r@) =~= before.push((l@.from, l@.to)).push((l@.to, l@.from)));
        i = i + 1;
    }
    assert(all.take(i as int) =~= all);
    r
}

impl ReachabilityCheck {
    fn fallback_check(&self, space_data: &SpaceData) -> (r: Vec<InvariantViolation>)
        requires
            space_data@.cells.len() > 0,
        ensures
            violation_views(r@) == cut_off(
                reached(both_ways(space_data@.links), space_data@.cells[0].id),
                space_data@.cells,
            ),
    {
        let ghost all = space_data@.cells;
        let edges = collect_edges(&space_data.incidences);
        assert(all[0] == space_data.cells@[0]@);
        let visited = reachable_from(&edges, space_data.cells[0].id.as_str());
        let mut r: Vec<InvariantViolation> = Vec::new();
        let mut i: usize = 0;
        assert(violation_views(r@) =~= cut_off(visited.texts(), all.take(0)));
        while i < space_data.cells.len()
            invariant
                i <= space_data.cells@.len(),
                all == space_data@.cells,
                violation_views(r@) == cut_off(visited.texts(), all.take(i as int)),
            decreases space_data.cells.len() - i,
        {
            let c = &space_data.cells[i];
            assert(all[i as int] == c@);
            assert(all.take(i + 1).drop_last() =~= all.take(i as int));
            if !visited.has(c.id.as_str()) {
                report(
                    &mut r,
                    "reachability",
                    c,
                    "is unreachable from the space root",
                    ViolationSeverity::Warning,
                );
            }
            i = i + 1;
        }
        assert(all.take(i as int) =~= all);
        r
    }
}

impl InvariantCheck for ReachabilityCheck {
    open spec fn title(&self) -> Seq<char> {
        "reachability"@
    }

    open spec fn found(&self, space: SpaceView, store: Option<StoreView>) -> Seq<ViolationView> {
        if space.cells.len() == 0 {
            Seq::empty()
        } else {
            match store {
                Some(s) => cut_off_in_store(s, space.id, space.cells[0].id, space.cells),
                None => cut_off(reached(both_ways(space.links), space.cells[0].id), space.cells),
            }
        }
    }

    fn name(&self) -> (r: &str) {
        "reachability"
    }

    fn check(&self, space_data: &SpaceData) -> (r: Vec<InvariantViolation>) {
        let ghost space = space_data@;
        let ghost all = space.cells;
        let mut r: Vec<InvariantViolation> = Vec::new();
        assert(violation_views(r@) =~= Seq::empty());
        assert(all.len() == space_data.cells@.len());
        if space_data.cells.len() == 0 {
            return r;
        }
        let store = match space_data.store() {
            Some(s) => s,
            None => {
                return self.fallback_check(space_data);
            },
        };
        let ghost sv = store_view(*store);
        let root = space_data.cells[0].id.clone();
        assert(all[0] == space_data.cells@[0]@);
        let any: Vec<String> = Vec::new();
        assert(texts(any@) =~= Seq::empty());
        let mut i: usize = 0;
        while i < space_data.cells.len()
            invariant
                i <= space_data.cells@.len(),
                space == space_data@,
                all == space.cells,
                sv == store_view(*store),
                any@.len() == 0,
                texts(any@) == Seq::<Seq<char>>::empty(),
                violation_views(r@) == cut_off_in_store(sv, space.id, root@, all.take(i as int)),
            decreases space_data.cells.len() - i,
        {
            let c = &space_data.cells[i];
            assert(all[i as int] == c@);
            assert(all.take(i + 1).drop_last() =~= all.take(i as int));
            if !same(c.id.as_str(), root.as_str()) {
                let answer = distance(
                    store,
                    space_data.space.id.as_str(),
                    root.as_str(),
                    c.id.as_str(),
                    Direction::Both,
                    &any,
                    None,
                );
                let reachable: bool = match answer {
                    Some(Some(_)) => true,
                    _ => false,
                };
                proof {
                    if let Some(a) = answer {
                        lemma_shortest(
                            sv.links,
                            trimmed(space.id),
                            Direction::Both,
                            Seq::empty(),
                            trimmed(root@),
                            trimmed(c@.id),
                            None,
                            a,
                        );
                    }
                }
                if !reachable {
                    report(
                        &mut r,
                        "reachability",
                        c,
                        "is unreachable from the space root (HG engine)",
                        ViolationSeverity::Warning,
                    );
                }
            }
            i = i + 1;
        }
        assert(all.take(i as int) =~= all);
        r
    }
}

/// The labels of the first cells of a cycle; cells without one are left out.
pub open spec fn cycle_labels(cells: Seq<CellView>, ids: Seq<Seq<char>>) -> Seq<Seq<char>>
    decreases ids.len(),
{
    if ids.len() == 0 {
        Seq::empty()
    } else {
        let before = cycle_labels(cells, ids.drop_last());
        match cell_with(cells, ids.last()) {
            Some(i) => match cells[i].label {
                Some(l) => before.push(l),
                None => before,
            },
            None => before,
        }
    }
}

pub open spec fn cycle_violation(cells: Seq<CellView>, ids: Seq<Seq<char>>) -> ViolationView {
    ViolationView {
        invariant_name: "acyclicity"@,
        cell_id: if ids.len() > 0 {
            Some(ids[0])
        } else {
            None
        },
        message: "Inheritance cycle detected via HG engine: "@ + joined(cycle_labels(cells, ids), " → "@),
        severity: ViolationSeverity::Error,
    }
}

/// The cycles of inheritance that the store knows: ten at most, none longer
/// than twenty.
pub open spec fn inheritance_cycles(store: StoreView, space: Seq<char>) -> Seq<Seq<Seq<char>>> {
    if valid_id(space) && store.spaces.contains(trimmed(space)) {
        simple_cycles(store.cells, store.links, trimmed(space), "java.extends"@, 10, 20)
    } else {
        Seq::empty()
    }
}

fn list_labels(cells: &Vec<Cell>, ids: &Vec<String>) -> (r: Vec<String>)
    ensures
        texts(r@) == cycle_labels(cell_views(cells@), texts(ids@)),
{
    let ghost all = texts(ids@);
    let ghost cv = cell_views(cells@);
    let mut r: Vec<String> = Vec::new();
    let mut i: usize = 0;
    assert(texts(r@) =~= Seq::empty());
    while i < ids.len()
        invariant
            i <= ids@.len(),
            all == texts(ids@),
            cv == cell_views(cells@),
            texts(r@) == cycle_labels(cv, all.take(i as int)),
        decreases ids.len() - i,
    {
        assert(all[i as int] == ids@[i as int]@);
        assert(all.take(i + 1).drop_last() =~= all.take(i as int));
        match find_cell(cells, ids[i].as_str()) {
            Some(at) => {
                assert(cv[at as int] == cells@[at as int]@);
                match &cells[at].label {
                    Some(l) => {
                        let ghost before = texts(r@);
                        r.push(l.clone());
                        assert(texts(r@) =~= before.push(l@));
                    },
                    None => {},
                }
            },
            None => {},
        }
        i = i + 1;
    }
    assert(all.take(i as int) =~= all);
    r
}

/// Reports cycles.
pub fn report_cycles(cells: &Vec<Cell>, found: &Vec<Vec<String>>) -> (r: Vec<InvariantViolation>)
    ensures
        violation_views(r@) == text_lists(found@).map_values(
            |ids: Seq<Seq<char>>| cycle_violation(cell_views(cells@), ids),
        ),
{
    let ghost all = text_lists(found@);
    let ghost cv = cell_views(cells@);
    let ghost expected = all.map_values(|ids: Seq<Seq<char>>| cycle_violation(cv, ids));
    let mut r: Vec<InvariantViolation> = Vec::new();
    let mut i: usize = 0;
    assert(violation_views(r@) =~= expected.take(0));
    while i < found.len()
        invariant
            i <= found@.len(),
            all == text_lists(found@),
            cv == cell_views(cells@),
            expected == all.map_values(|ids: Seq<Seq<char>>| cycle_violation(cv, ids)),
            violation_views(r@) == expected.take(i as int),
        decreases found.len() - i,
    {
        let ids = &found[i];
        assert(all[i as int] == texts(ids@));
        assert(texts(ids@).len() == ids@.len());
        let ghost before = violation_views(r@);
        let cell_id = if ids.len() > 0 {
            assert(texts(ids@)[0] == ids@[0]@);
            Some(ids[0].clone())
        } else {
            None
        };
        let mut message = "Inheritance cycle detected via HG engine: ".to_owned();
        message.append(join(list_labels(cells, ids).as_slice(), " → ").as_str());
        let item = InvariantViolation {
            invariant_name: "acyclicity".to_owned(),
            cell_id,
            message,
            severity: ViolationSeverity::Error,
        };
        let ghost iv = item@;
        assert(iv =~= cycle_violation(cv, texts(ids@)));
        r.push(item);
        i = i + 1;
        assert(violation_views(r@) =~= before.push(iv));
        assert(violation_views(r@) =~= expected.take(i as int));
    }
    assert(expected.take(i as int) =~= expected);
    r
}

impl InvariantCheck for AcyclicityCheck {
    open spec fn title(&self) -> Seq<char> {
        "acyclicity"@
    }

    open spec fn found(&self, space: SpaceView, store: Option<StoreView>) -> Seq<ViolationView> {
        match store {
            Some(s) => inheritance_cycles(s, space.id).map_values(
                |ids: Seq<Seq<char>>| cycle_violation(space.cells, ids),
            ),
            None => Seq::empty(),
        }
    }

    fn name(&self) -> (r: &str) {
        "acyclicity"
    }

    fn check(&self, space_data: &SpaceData) -> (r: Vec<InvariantViolation>) {
        let none: Vec<InvariantViolation> = Vec::new();
        assert(violation_views(none@) =~= Seq::empty());
        let store = match space_data.store() {
            Some(s) => s,
            None => {
                return none;
            },
        };
        proof {
            reveal_strlit("java.extends");
            lemma_tight("java.extends"@);
        }
        match cycles(store, space_data.space.id.as_str(), "java.extends", 10, 20) {
            Some(found) => {
                assert(cell_views(space_data.cells@) == space_data@.cells);
                report_cycles(&space_data.cells, &found)
            },
            None => {
                assert(Seq::<Seq<Seq<char>>>::empty().map_values(
                    |ids: Seq<Seq<char>>| cycle_violation(space_data@.cells, ids),
                ) =~= Seq::empty());
                none
            },
        }
    }
}

/// The checks that come with the library.
#[derive(Debug, Clone, Copy, PartialEq, Eq, Structural)]
pub enum BuiltInCheck {
    Grounding,
    Consistency,
    Reachability,
    Acyclicity,
}

impl InvariantCheck for BuiltInCheck {
    open spec fn title(&self) -> Seq<char> {
        match self {
            BuiltInCheck::Grounding => GroundingCheck.title(),
            BuiltInCheck::Consistency => ConsistencyCheck.title(),
            BuiltInCheck::Reachability => ReachabilityCheck.title(),
            BuiltInCheck::Acyclicity => AcyclicityCheck.title(),
        }
    }

    open spec fn found(&self, space: SpaceView, store: Option<StoreView>) -> Seq<ViolationView> {
        match self {
            BuiltInCheck::Grounding => GroundingCheck.found(space, store),
            BuiltInCheck::Consistency => ConsistencyCheck.found(space, store),
            BuiltInCheck::Reachability => ReachabilityCheck.found(space, store),
            BuiltInCheck::Acyclicity => AcyclicityCheck.found(space, store),
        }
    }

    fn name(&self) -> (r: &str) {
        match self {
            BuiltInCheck::Grounding => "grounding",
            BuiltInCheck::Consistency => "consistency",
            BuiltInCheck::Reachability => "reachability",
            BuiltInCheck::Acyclicity => "acyclicity",
        }
    }

    fn check(&self, space_data: &SpaceData) -> (r: Vec<InvariantViolation>) {
        match self {
            BuiltInCheck::Grounding => GroundingCheck.check(space_data),
            BuiltInCheck::Consistency => ConsistencyCheck.check(space_data),
            BuiltInCheck::Reachability => ReachabilityCheck.check(space_data),
            BuiltInCheck::Acyclicity => AcyclicityCheck.check(space_data),
        }
    }
}

/// Runs checks one after the other.
pub struct InvariantChecker {
    pub checks: Vec<BuiltInCheck>,
}

/// What the checks find.
pub open spec fn all_found(checks: Seq<BuiltInCheck>, space: SpaceView, store: Option<StoreView>) -> Seq<ViolationView>
    decreases checks.len(),
{
    if checks.len() == 0 {
        Seq::empty()
    } else {
        all_found(checks.drop_last(), space, store) + checks.last().found(space, store)
    }
}

impl InvariantChecker {
    pub fn default_checks() -> (r: Self)
        ensures
            r.checks@ == seq![
                BuiltInCheck::Grounding,
                BuiltInCheck::Consistency,
                BuiltInCheck::Reachability,
                BuiltInCheck::Acyclicity,
            ],
    {
        let mut checks: Vec<BuiltInCheck> = Vec::new();
        checks.push(BuiltInCheck::Grounding);
        checks.push(BuiltInCheck::Consistency);
        checks.push(BuiltInCheck::Reachability);
        checks.push(BuiltInCheck::Acyclicity);
        assert(checks@ =~= seq![
            BuiltInCheck::Grounding,
            BuiltInCheck::Consistency,
            BuiltInCheck::Reachability,
            BuiltInCheck::Acyclicity,
        ]);
        InvariantChecker { checks }
    }

    pub fn check_all(&self, space_data: &SpaceData) -> (r: Vec<InvariantViolation>)
        ensures
            violation_views(r@) == all_found(self.checks@, space_data@, space_data.stored()),
    {
        let ghost space = space_data@;
        let ghost store = space_data.stored();
        let mut r: Vec<InvariantViolation> = Vec::new();
        let mut i: usize = 0;
        assert(violation_views(r@) =~= all_found(self.checks@.take(0), space, store));
        while i < self.checks.len()
            invariant
                i <= self.checks@.len(),
                space == space_data@,
                store == space_data.stored(),
                violation_views(r@) == all_found(self.checks@.take(i as int), space, store),
            decreases self.checks.len() - i,
        {
            assert(self.checks@.take(i + 1).drop_last() =~= self.checks@.take(i as int));
            let ghost before = r@;
            let mut more = self.checks[i].check(space_data);
            let ghost m = more@;
            r.append(&mut more);
            assert(r@ =~= before + m);
            assert(violation_views(r@) =~= violation_views(before) + violation_views(m));
            i = i + 1;
        }
        assert(self.checks@.take(i as int) =~= self.checks@);
        r
    }
}

/// A space whose cells all say where they come from passes the grounding check.
pub proof fn law_grounded(cells: Seq<CellView>)
    requires
        forall|i: int|
            0 <= i < cells.len() ==> ((#[trigger] cells[i]).provenance matches Some(p) && p.uri is Some),
    ensures
        ungrounded(cells).len() == 0,
    decreases cells.len(),
{
    if cells.len() > 0 {
        assert forall|i: int| 0 <= i < cells.drop_last().len() implies ((#[trigger] cells.drop_last()[i]).provenance matches Some(
            p,
        ) && p.uri is Some) by {
            assert(cells[i].provenance is Some);
        }
        law_grounded(cells.drop_last());
        assert(cells[cells.len() - 1].provenance is Some);
    }
}

/// What is lifted passes the grounding check: nothing is claimed without a
/// place in the sources.
pub proof fn law_lifted_is_grounded(
    sources: Seq<SourceView>,
    space: Seq<char>,
    label: Seq<char>,
    resolved: Seq<(Seq<char>, Seq<char>)>,
)
    ensures
        GroundingCheck.found(lifted(sources, space, label, resolved).space, None).len() == 0,
{
    law_cells_are_witnessed(sources, space, label, resolved);
    let cells = lifted(sources, space, label, resolved).space.cells;
    assert forall|i: int| 0 <= i < cells.len() implies ((#[trigger] cells[i]).provenance matches Some(p) && p.uri is Some) by {
        assert(is_witnessed(cells[i], space));
    }
    law_grounded(cells);
}

} // verus!
