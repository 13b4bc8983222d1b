//! What a specification says and what it leaves out.

use vstd::prelude::*;

use crate::lines::begins;
use crate::model::entity::JavaEntityType;
use crate::model::semantic::AnnotationView;
use crate::model::space_data::{EntityView, SpaceView};
use crate::order::{lemma_stable_sorted_contains, stable_sorted};
use crate::query::feature_laws::is_callable;
use crate::query::projection::{
    by_fqn, loss_told, losses_for, member_cells, section_entities, section_for, spec_loss_of, LossReportView,
};
use crate::query::resolve::entity_with;
use crate::text::decimal_text;
use crate::text_map::lookup;

verus! {

/// A type that gets a section.
pub open spec fn has_section(e: EntityView) -> bool {
    e.entity_type == JavaEntityType::Class || e.entity_type == JavaEntityType::Interface || e.entity_type
        == JavaEntityType::Enum || e.entity_type == JavaEntityType::Record
}

proof fn lemma_sections(entities: Seq<EntityView>)
    ensures
        section_entities(entities) == entities.filter(|e: EntityView| has_section(e)),
    decreases entities.len(),
{
    reveal(Seq::filter);
    if entities.len() > 0 {
        lemma_sections(entities.drop_last());
    }
}

/// A method or constructor inside a type.
pub open spec fn is_inside(e: EntityView, type_fqn: Seq<char>) -> bool {
    is_callable(e) && begins(e.fqn, type_fqn + "."@)
}

/// Nothing has been said of the cell.
pub open spec fn is_bare(space: SpaceView, id: Seq<char>) -> bool {
    lookup(space.annotations, id) matches Some(a) ==> a == AnnotationView::empty()
}

proof fn lemma_members(space: SpaceView, entities: Seq<EntityView>, type_fqn: Seq<char>)
    ensures
        member_cells(space, entities, type_fqn + "."@, false) == entities.filter(
            |e: EntityView| is_inside(e, type_fqn),
        ).map_values(|e: EntityView| e.cell_id),
        member_cells(space, entities, type_fqn + "."@, true) == entities.filter(
            |e: EntityView| is_inside(e, type_fqn) && is_bare(space, e.cell_id),
        ).map_values(|e: EntityView| e.cell_id),
    decreases entities.len(),
{
    reveal(Seq::filter);
    let f = |e: EntityView| e.cell_id;
    let p = |e: EntityView| is_inside(e, type_fqn);
    let q = |e: EntityView| is_inside(e, type_fqn) && is_bare(space, e.cell_id);
    if entities.len() > 0 {
        lemma_members(space, entities.drop_last(), type_fqn);
    }
    assert(member_cells(space, entities, type_fqn + "."@, false) =~= entities.filter(p).map_values(f));
    assert(member_cells(space, entities, type_fqn + "."@, true) =~= entities.filter(q).map_values(f));
}

/// The types that get sections are the classes, interfaces, enums and records.
pub proof fn law_section_types(space: SpaceView, e: EntityView)
    ensures
        stable_sorted(section_entities(space.entities), by_fqn()).contains(e) <==> space.entities.contains(e)
            && has_section(e),
{
    lemma_sections(space.entities);
    lemma_stable_sorted_contains(section_entities(space.entities), by_fqn());
    crate::seqs::lemma_filter_contains(space.entities, |e: EntityView| has_section(e));
}

/// The section of a type says what the type is for, or that only its signature
/// is known, and stands for the type and all of its methods and constructors.
pub proof fn law_section(space: SpaceView, e: EntityView)
    ensures
        ({
            let s = section_for(space, e);
            let members = space.entities.filter(|m: EntityView| is_inside(m, e.fqn));
            &&& s.title == e.fqn
            &&& lookup(space.annotations, e.cell_id) matches Some(a) ==> (a.intent matches Some(text) ==> s.body == text)
            &&& lookup(space.annotations, e.cell_id) is None ==> s.body == "signature only"@
            &&& s.source_ids == seq![e.cell_id] + members.map_values(|m: EntityView| m.cell_id)
        }),
{
    lemma_members(space, space.entities, e.fqn);
}

/// The losses of a type are declared: that its members are folded into it, and
/// which of them are listed by signature only.
pub proof fn law_losses(space: SpaceView, e: EntityView)
    ensures
        ({
            let losses = losses_for(space, e);
            let members = space.entities.filter(|m: EntityView| is_inside(m, e.fqn)).map_values(
                |m: EntityView| m.cell_id,
            );
            let bare = space.entities.filter(
                |m: EntityView| is_inside(m, e.fqn) && is_bare(space, m.cell_id),
            ).map_values(|m: EntityView| m.cell_id);
            &&& losses.len() == (if members.len() > 0 {
                1int
            } else {
                0
            }) + (if bare.len() > 0 {
                1int
            } else {
                0
            })
            &&& members.len() > 0 ==> losses[0].source_ids == members && losses[0].description == decimal_text(
                members.len(),
            ) + " member(s) folded into class section"@
            &&& bare.len() > 0 ==> losses.last().source_ids == bare && losses.last().description == decimal_text(
                bare.len(),
            ) + " member(s) listed by signature only (not annotated)"@
        }),
{
    lemma_members(space, space.entities, e.fqn);
}

/// A space without types loses nothing.
pub proof fn law_nothing_lost(space: SpaceView)
    requires
        forall|i: int| 0 <= i < space.entities.len() ==> !has_section(#[trigger] space.entities[i]),
        space.cells.len() <= usize::MAX,
    ensures
        spec_loss_of(space) matches Ok(r) && r.risk_severity == "low"@ && r.total_sources == space.cells.len()
            && r.projected_sections == 0 && r.omitted_count == 0 && r.omitted_examples.len() == 0
            && r.collapsed_pair_count == 0 && r.missing_loss_declarations == 0 && r.obstructions.len() == 0,
{
    let classes = stable_sorted(section_entities(space.entities), by_fqn());
    if classes.len() > 0 {
        law_section_types(space, classes[0]);
        assert(classes.contains(classes[0]));
        let i = choose|i: int| 0 <= i < space.entities.len() && space.entities[i] == classes[0];
        assert(!has_section(space.entities[i]));
    }
}

/// What a report tells: all counts of the measurement, and the names of the
/// first five cells that are left out.
pub proof fn law_loss_told(space: SpaceView, report: LossReportView, i: int)
    requires
        report.omitted.len() <= usize::MAX,
    ensures
        ({
            let r = loss_told(space, report);
            &&& r.total_sources == report.source_cardinality
            &&& r.projected_sections == report.projected_cardinality
            &&& r.omitted_count == report.omitted.len()
            &&& r.collapsed_pair_count == report.collapsed_pairs
            &&& r.missing_loss_declarations == report.missing
            &&& r.obstructions == report.obstructions
            &&& report.omitted.len() <= 5 ==> r.omitted_examples.len() == report.omitted.len()
            &&& report.omitted.len() > 5 ==> r.omitted_examples.len() == 5
            &&& 0 <= i < r.omitted_examples.len() ==> match entity_with(space.entities, report.omitted[i]) {
                Some(k) => r.omitted_examples[i] == space.entities[k].fqn,
                None => r.omitted_examples[i] == report.omitted[i],
            }
        }),
{
}

} // verus!
