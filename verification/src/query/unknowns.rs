//! What the lift could not establish.

use vstd::prelude::*;

use crate::model::entity::cell_type_of;
use crate::model::graph::{is_less, less, CellView, Confidence, HALF_BITS};
use crate::model::relation::relation_name;
use crate::model::space_data::{EntityView, SpaceData, SpaceView, UnresolvedRecord, UnresolvedView};
use crate::query::hotspots::capped;
use crate::query::resolve::{cell_with, find_cell};
use crate::query::search::{contains_ignoring_case, holds_ignoring_case};
use crate::text::{decimal, decimal_text, lowercase, texts};

verus! {

#[derive(Debug)]
pub struct UnresolvedRef {
    pub message: String,
}

#[verifier::ext_equal]
pub struct UnresolvedRefView {
    pub message: Seq<char>,
}

impl View for UnresolvedRef {
    type V = UnresolvedRefView;

    open spec fn view(&self) -> UnresolvedRefView {
        UnresolvedRefView {
            message: self.message@,
        }
    }
}

#[derive(Debug)]
pub struct LowConfidenceEntity {
    pub fqn: String,
    pub entity_type: String,
    pub confidence: Confidence,
    pub reason: String,
}

#[verifier::ext_equal]
pub struct LowConfidenceEntityView {
    pub fqn: Seq<char>,
    pub entity_type: Seq<char>,
    pub confidence: Confidence,
    pub reason: Seq<char>,
}

impl View for LowConfidenceEntity {
    type V = LowConfidenceEntityView;

    open spec fn view(&self) -> LowConfidenceEntityView {
        LowConfidenceEntityView {
            fqn: self.fqn@,
            entity_type: self.entity_type@,
            confidence: self.confidence,
            reason: self.reason@,
        }
    }
}

#[derive(Debug)]
pub struct UnknownsResult {
    pub scope: String,
    pub unresolved_references: Vec<UnresolvedRef>,
    pub low_confidence_entities: Vec<LowConfidenceEntity>,
    pub obstructions: Vec<String>,
    pub total_unknowns: usize,
}

#[verifier::ext_equal]
pub struct UnknownsResultView {
    pub scope: Seq<char>,
    pub unresolved_references: Seq<UnresolvedRefView>,
    pub low_confidence_entities: Seq<LowConfidenceEntityView>,
    pub obstructions: Seq<Seq<char>>,
    pub total_unknowns: usize,
}

impl View for UnknownsResult {
    type V = UnknownsResultView;

    open spec fn view(&self) -> UnknownsResultView {
        UnknownsResultView {
            scope: self.scope@,
            unresolved_references: self.unresolved_references@.map_values(|x: UnresolvedRef| x@),
            low_confidence_entities: self.low_confidence_entities@.map_values(|x: LowConfidenceEntity| x@),
            obstructions: texts(self.obstructions@),
            total_unknowns: self.total_unknowns,
        }
    }
}

/// The text lies in the scope, which is given in lower case; all does when there is none.
pub open spec fn in_scope(text: Seq<char>, scope_lower: Option<Seq<char>>) -> bool {
    match scope_lower {
        Some(s) => holds_ignoring_case(text, s),
        None => true,
    }
}

pub open spec fn opt_str(s: Option<&str>) -> Option<Seq<char>> {
    match s {
        Some(t) => Some(t@),
        None => None,
    }
}

pub fn is_in_scope(text: &str, scope_lower: Option<&str>) -> (r: bool)
    ensures
        r == in_scope(text@, opt_str(scope_lower)),
{
    match scope_lower {
        Some(s) => contains_ignoring_case(text, s),
        None => true,
    }
}

/// The obstructions in scope.
pub open spec fn obstructions_in(all: Seq<Seq<char>>, scope_lower: Option<Seq<char>>) -> Seq<Seq<char>>
    decreases all.len(),
{
    if all.len() == 0 {
        Seq::empty()
    } else {
        let before = obstructions_in(all.drop_last(), scope_lower);
        if in_scope(all.last(), scope_lower) {
            before.push(all.last())
        } else {
            before
        }
    }
}

/// Why an entity is doubtful: its cell has no provenance, or one below one half.
pub open spec fn doubt(e: EntityView, cells: Seq<CellView>) -> Option<LowConfidenceEntityView> {
    match cell_with(cells, e.cell_id) {
        None => None,
        Some(i) => match cells[i].provenance {
            Some(p) => if is_less(p.confidence.bits, HALF_BITS) {
                Some(
                    LowConfidenceEntityView {
                        fqn: e.fqn,
                        entity_type: cell_type_of(e.entity_type),
                        confidence: p.confidence,
                        reason: "Low corroboration confidence"@,
                    },
                )
            } else {
                None
            },
            None => Some(
                LowConfidenceEntityView {
                    fqn: e.fqn,
                    entity_type: cell_type_of(e.entity_type),
                    confidence: Confidence { bits: 0 },
                    reason: "No provenance"@,
                },
            ),
        },
    }
}

/// The doubtful entities in scope.
pub open spec fn doubts_in(entities: Seq<EntityView>, cells: Seq<CellView>, scope_lower: Option<Seq<char>>) -> Seq<
    LowConfidenceEntityView,
>
    decreases entities.len(),
{
    if entities.len() == 0 {
        Seq::empty()
    } else {
        let before = doubts_in(entities.drop_last(), cells, scope_lower);
        match doubt(entities.last(), cells) {
            Some(d) => if in_scope(entities.last().fqn, scope_lower) {
                before.push(d)
            } else {
                before
            },
            None => before,
        }
    }
}

/// How an unresolved reference is reported: what refers to what, and where.
pub open spec fn unresolved_text(u: UnresolvedView) -> Seq<char> {
    "Unresolved "@ + relation_name(u.relation_type) + ": "@ + u.from_fqn + " → "@ + u.target_text + " ("@ + u.file
        + ":"@ + decimal_text(u.line as nat) + ")"@
}

/// The unresolved references whose source or target lies in scope.
pub open spec fn unresolved_in(all: Seq<UnresolvedView>, scope_lower: Option<Seq<char>>) -> Seq<UnresolvedRefView>
    decreases all.len(),
{
    if all.len() == 0 {
        Seq::empty()
    } else {
        let before = unresolved_in(all.drop_last(), scope_lower);
        let u = all.last();
        if in_scope(u.from_fqn, scope_lower) || in_scope(u.target_text, scope_lower) {
            before.push(UnresolvedRefView { message: unresolved_text(u) })
        } else {
            before
        }
    }
}

/// What is unknown in a scope, given also in lower case.
pub open spec fn unknowns_in(space: SpaceView, scope: Option<Seq<char>>, scope_lower: Option<Seq<char>>) -> UnknownsResultView {
    let obstructions = obstructions_in(space.obstructions, scope_lower);
    let doubts = doubts_in(space.entities, space.cells, scope_lower);
    let unresolved = unresolved_in(space.unresolved, scope_lower);
    UnknownsResultView {
        scope: match scope {
            Some(s) => s,
            None => "all"@,
        },
        unresolved_references: unresolved,
        low_confidence_entities: doubts,
        obstructions,
        total_unknowns: capped(obstructions.len() + doubts.len() + unresolved.len()) as usize,
    }
}

fn doubt_of(space_data: &SpaceData, i: usize) -> (r: Option<LowConfidenceEntity>)
    requires
        i < space_data.entities@.len(),
    ensures
        match r {
            Some(d) => doubt(space_data@.entities[i as int], space_data@.cells) == Some(d@),
            None => doubt(space_data@.entities[i as int], space_data@.cells) is None,
        },
{
    let e = &space_data.entities[i];
    assert(space_data@.entities[i as int] == e@);
    match find_cell(&space_data.cells, e.cell_id.as_str()) {
        None => None,
        Some(k) => {
            assert(space_data@.cells[k as int] == space_data.cells@[k as int]@);
            match &space_data.cells[k].provenance {
                Some(p) => {
                    if less(p.confidence.bits, HALF_BITS) {
                        Some(
                            LowConfidenceEntity {
                                fqn: e.fqn.clone(),
                                entity_type: e.entity_type.cell_type_str().to_owned(),
                                confidence: p.confidence,
                                reason: "Low corroboration confidence".to_owned(),
                            },
                        )
                    } else {
                        None
                    }
                },
                None => Some(
                    LowConfidenceEntity {
                        fqn: e.fqn.clone(),
                        entity_type: e.entity_type.cell_type_str().to_owned(),
                        confidence: Confidence { bits: 0 },
                        reason: "No provenance".to_owned(),
                    },
                ),
            }
        },
    }
}

spec fn doubt_views(v: Seq<LowConfidenceEntity>) -> Seq<LowConfidenceEntityView> {
    v.map_values(|x: LowConfidenceEntity| x@)
}

spec fn ref_views(v: Seq<UnresolvedRef>) -> Seq<UnresolvedRefView> {
    v.map_values(|x: UnresolvedRef| x@)
}

fn report_unresolved(u: &UnresolvedRecord) -> (r: UnresolvedRef)
    ensures
        r@.message == unresolved_text(u@),
{
    let mut message = "Unresolved ".to_owned();
    message.append(u.relation_type.name());
    message.append(": ");
    message.append(u.from_fqn.as_str());
    message.append(" → ");
    message.append(u.target_text.as_str());
    message.append(" (");
    message.append(u.file.as_str());
    message.append(":");
    message.append(decimal(u.line as u128).as_str());
    message.append(")");
    UnresolvedRef { message }
}

/// The unresolved references in a scope that is in lower case already.
fn collect_unresolved(records: &Vec<UnresolvedRecord>, scope_lower: Option<&str>) -> (r: Vec<UnresolvedRef>)
    ensures
        ref_views(r@) == unresolved_in(records@.map_values(|u: UnresolvedRecord| u@), opt_str(scope_lower)),
{
    let ghost all = records@.map_values(|u: UnresolvedRecord| u@);
    let ghost sl = opt_str(scope_lower);
    let mut r: Vec<UnresolvedRef> = Vec::new();
    let mut i: usize = 0;
    assert(ref_views(r@) =~= unresolved_in(all.take(0), sl));
    while i < records.len()
        invariant
            i <= records@.len(),
            all == records@.map_values(|u: UnresolvedRecord| u@),
            sl == opt_str(scope_lower),
            ref_views(r@) == unresolved_in(all.take(i as int), sl),
        decreases records.len() - i,
    {
        let u = &records[i];
        assert(all[i as int] == u@);
        assert(all.take(i + 1).drop_last() =~= all.take(i as int));
        if is_in_scope(u.from_fqn.as_str(), scope_lower) || is_in_scope(u.target_text.as_str(), scope_lower) {
            let ghost before = r@;
            let item = report_unresolved(u);
            r.push(item);
            assert(item@ == UnresolvedRefView { message: unresolved_text(u@) });
            assert(ref_views(r@) =~= ref_views(before).push(item@));
        }
        i = i + 1;
    }
    assert(all.take(i as int) =~= all);
    r
}

/// What is unknown in a scope that is in lower case already.
pub fn unknowns_lower(space_data: &SpaceData, scope: Option<&str>, scope_lower: Option<&str>) -> (r: UnknownsResult)
    ensures
        r@ == unknowns_in(space_data@, opt_str(scope), opt_str(scope_lower)),
{
    let ghost space = space_data@;
    let ghost sl = opt_str(scope_lower);
    let mut obstructions: Vec<String> = Vec::new();
    let mut i: usize = 0;
    assert(texts(obstructions@) =~= obstructions_in(space.obstructions.take(0), sl));
    while i < space_data.obstructions.len()
        invariant
            i <= space_data.obstructions@.len(),
            space == space_data@,
            sl == opt_str(scope_lower),
            texts(obstructions@) == obstructions_in(space.obstructions.take(i as int), sl),
            obstructions@.len() <= i,
        decreases space_data.obstructions.len() - i,
    {
        let o = &space_data.obstructions[i];
        assert(space.obstructions[i as int] == o@);
        assert(space.obstructions.take(i + 1).drop_last() =~= space.obstructions.take(i as int));
        if is_in_scope(o.as_str(), scope_lower) {
            let ghost before = obstructions@;
            obstructions.push(o.clone());
            assert(texts(obstructions@) =~= texts(before).push(o@));
        }
        i = i + 1;
    }
    assert(space.obstructions.take(i as int) =~= space.obstructions);
    let mut low: Vec<LowConfidenceEntity> = Vec::new();
    let mut k: usize = 0;
    assert(doubt_views(low@) =~= doubts_in(space.entities.take(0), space.cells, sl));
    while k < space_data.entities.len()
        invariant
            k <= space_data.entities@.len(),
            space == space_data@,
            sl == opt_str(scope_lower),
            doubt_views(low@) == doubts_in(space.entities.take(k as int), space.cells, sl),
            low@.len() <= k,
        decreases space_data.entities.len() - k,
    {
        let e = &space_data.entities[k];
        assert(space.entities[k as int] == e@);
        assert(space.entities.take(k + 1).drop_last() =~= space.entities.take(k as int));
        match doubt_of(space_data, k) {
            Some(d) => {
                if is_in_scope(e.fqn.as_str(), scope_lower) {
                    let ghost before = low@;
                    low.push(d);
                    assert(doubt_views(low@) =~= doubt_views(before).push(d@));
                }
            },
            None => {},
        }
        k = k + 1;
    }
    assert(space.entities.take(k as int) =~= space.entities);
    let unresolved = collect_unresolved(&space_data.unresolved, scope_lower);
    let total: usize = obstructions.len().saturating_add(low.len()).saturating_add(unresolved.len());
    proof {
        assert(texts(obstructions@).len() == obstructions@.len());
        assert(doubt_views(low@).len() == low@.len());
        assert(ref_views(unresolved@).len() == unresolved@.len());
    }
    UnknownsResult {
        scope: match scope {
            Some(s) => s.to_owned(),
            None => "all".to_owned(),
        },
        unresolved_references: unresolved,
        low_confidence_entities: low,
        obstructions,
        total_unknowns: total,
    }
}

pub open spec fn opt_lower(s: Option<&str>) -> Option<Seq<char>> {
    match s {
        Some(t) => Some(lowercase(t@)),
        None => None,
    }
}

/// Unresolved references, obstructions and doubtful entities, optionally in a
/// scope (ignoring case).
pub fn unknowns(space_data: &SpaceData, scope: Option<&str>) -> (r: UnknownsResult)
    ensures
        r@ == unknowns_in(space_data@, opt_str(scope), opt_lower(scope)),
{
    match scope {
        Some(s) => {
            let lower = s.to_lowercase();
            unknowns_lower(space_data, scope, Some(lower.as_str()))
        },
        None => unknowns_lower(space_data, None, None),
    }
}

} // verus!
