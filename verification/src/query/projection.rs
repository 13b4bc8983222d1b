//! How much a human-facing specification of a space leaves out.

use higher_graphen_core::{CoreError, Id};
use higher_graphen_projection::{
    measure_projection_loss, InformationLoss, OutputSchema, ProjectionAudience, ProjectionOutput, ProjectionPurpose,
    ProjectionResult, ProjectionSection, RendererKind,
};
use vstd::prelude::*;

use crate::lines::{begins, lemma_trimmed_again, starts_with, trimmed};
use crate::model::entity::JavaEntityType;
use crate::model::graph::{Cell, CellView};
use crate::model::ids::{error_message, id_error, message_of};
use crate::model::semantic::AnnotationView;
use crate::model::space_data::{EntityRecord, EntityView, SpaceData, SpaceView};
use crate::model::store::valid_id;
use crate::order::{lemma_sorted_map, lemma_stable_sorted, sort_stable, stable_sorted, total_preorder};
use crate::query::explain::{annotation_at, annotation_of};
use crate::query::feature::{callable, is_callable_kind};
use crate::query::resolve::{cell_views, entity_views, entity_with, find_entity};
use crate::text::{
    at_most, chars_of, copy_texts, decimal, decimal_text, lemma_lex_total, lemma_lex_transitive, lex_le, lowercase, texts,
};

verus! {

/// How much the human-facing projection of a space leaves out.
#[derive(Debug)]
pub struct SpecLossReport {
    /// Inferred review severity: "low", "medium" or "high".
    pub risk_severity: String,
    /// Number of cells considered.
    pub total_sources: usize,
    /// Number of projected sections, one per type.
    pub projected_sections: usize,
    /// Cells absent from the projection.
    pub omitted_count: usize,
    /// Some of the names that are left out, five at most.
    pub omitted_examples: Vec<String>,
    /// Pairs of cells folded into one section.
    pub collapsed_pair_count: usize,
    /// Cells whose loss can be measured and is not declared.
    pub missing_loss_declarations: usize,
    pub obstructions: Vec<String>,
}

#[verifier::ext_equal]
pub struct SpecLossReportView {
    pub risk_severity: Seq<char>,
    pub total_sources: usize,
    pub projected_sections: usize,
    pub omitted_count: usize,
    pub omitted_examples: Seq<Seq<char>>,
    pub collapsed_pair_count: usize,
    pub missing_loss_declarations: usize,
    pub obstructions: Seq<Seq<char>>,
}

impl View for SpecLossReport {
    type V = SpecLossReportView;

    open spec fn view(&self) -> SpecLossReportView {
        SpecLossReportView {
            risk_severity: self.risk_severity@,
            total_sources: self.total_sources,
            projected_sections: self.projected_sections,
            omitted_count: self.omitted_count,
            omitted_examples: texts(self.omitted_examples@),
            collapsed_pair_count: self.collapsed_pair_count,
            missing_loss_declarations: self.missing_loss_declarations,
            obstructions: texts(self.obstructions@),
        }
    }
}

/// A section of a projection and the cells it stands for.
#[derive(Debug)]
pub struct SpecSection {
    pub title: String,
    pub body: String,
    pub source_ids: Vec<String>,
}

#[verifier::ext_equal]
pub struct SpecSectionView {
    pub title: Seq<char>,
    pub body: Seq<char>,
    pub source_ids: Seq<Seq<char>>,
}

impl View for SpecSection {
    type V = SpecSectionView;

    open spec fn view(&self) -> SpecSectionView {
        SpecSectionView {
            title: self.title@,
            body: self.body@,
            source_ids: texts(self.source_ids@),
        }
    }
}

/// A declared loss and the cells it concerns.
#[derive(Debug)]
pub struct SpecLoss {
    pub description: String,
    pub source_ids: Vec<String>,
}

#[verifier::ext_equal]
pub struct SpecLossView {
    pub description: Seq<char>,
    pub source_ids: Seq<Seq<char>>,
}

impl View for SpecLoss {
    type V = SpecLossView;

    open spec fn view(&self) -> SpecLossView {
        SpecLossView {
            description: self.description@,
            source_ids: texts(self.source_ids@),
        }
    }
}

/// What has been measured of a projection.
#[derive(Debug)]
pub struct LossReport {
    pub severity: String,
    pub source_cardinality: usize,
    pub projected_cardinality: usize,
    pub omitted: Vec<String>,
    pub collapsed_pairs: usize,
    pub missing: usize,
    pub obstructions: Vec<String>,
}

#[verifier::ext_equal]
pub struct LossReportView {
    pub severity: Seq<char>,
    pub source_cardinality: usize,
    pub projected_cardinality: usize,
    pub omitted: Seq<Seq<char>>,
    pub collapsed_pairs: usize,
    pub missing: usize,
    pub obstructions: Seq<Seq<char>>,
}

impl View for LossReport {
    type V = LossReportView;

    open spec fn view(&self) -> LossReportView {
        LossReportView {
            severity: self.severity@,
            source_cardinality: self.source_cardinality,
            projected_cardinality: self.projected_cardinality,
            omitted: texts(self.omitted@),
            collapsed_pairs: self.collapsed_pairs,
            missing: self.missing,
            obstructions: texts(self.obstructions@),
        }
    }
}

/// A section of the graph library.
#[verifier::external_type_specification]
#[verifier::external_body]
pub struct ExProjectionSection(ProjectionSection);

/// A declared loss of the graph library.
#[verifier::external_type_specification]
#[verifier::external_body]
pub struct ExInformationLoss(InformationLoss);

/// A projection of the graph library.
#[verifier::external_type_specification]
#[verifier::external_body]
pub struct ExProjectionResult(ProjectionResult);

/// What a projection holds: its sections, the cells it stands for and its
/// declared losses.
#[verifier::ext_equal]
pub struct ProjectionParts {
    pub sections: Seq<SpecSectionView>,
    pub sources: Seq<Seq<char>>,
    pub losses: Seq<SpecLossView>,
}

pub uninterp spec fn projection_parts(p: ProjectionResult) -> ProjectionParts;

/// What a section of the graph library holds.
pub uninterp spec fn section_parts(s: ProjectionSection) -> SpecSectionView;

/// Why no section can be made of a record.
pub uninterp spec fn section_error(s: SpecSectionView) -> Seq<char>;

/// What a declared loss of the graph library holds.
pub uninterp spec fn loss_parts(l: InformationLoss) -> SpecLossView;

/// Why no loss can be declared of a record.
pub uninterp spec fn loss_error(l: SpecLossView) -> Seq<char>;

/// What is measured of a projection against the cells it could show.
pub uninterp spec fn measured_loss(parts: ProjectionParts, eligible: Seq<Seq<char>>) -> Option<LossReportView>;

pub open spec fn section_views(v: Seq<SpecSection>) -> Seq<SpecSectionView> {
    v.map_values(|s: SpecSection| s@)
}

pub open spec fn loss_views(v: Seq<SpecLoss>) -> Seq<SpecLossView> {
    v.map_values(|l: SpecLoss| l@)
}

pub open spec fn all_valid(ids: Seq<Seq<char>>) -> bool {
    forall|i: int| 0 <= i < ids.len() ==> valid_id(#[trigger] ids[i])
}

pub open spec fn all_trimmed(ids: Seq<Seq<char>>) -> Seq<Seq<char>> {
    ids.map_values(|id: Seq<char>| trimmed(id))
}

impl SpecSectionView {
    /// The record without white space around its texts.
    pub open spec fn tidy(self) -> Self {
        SpecSectionView {
            title: trimmed(self.title),
            body: trimmed(self.body),
            source_ids: all_trimmed(self.source_ids),
        }
    }

    pub open spec fn is_complete(self) -> bool {
        all_valid(self.source_ids) && trimmed(self.title).len() > 0 && trimmed(self.body).len() > 0
    }
}

impl SpecLossView {
    /// The record without white space around its texts.
    pub open spec fn tidy(self) -> Self {
        SpecLossView { description: trimmed(self.description), source_ids: all_trimmed(self.source_ids) }
    }

    pub open spec fn is_complete(self) -> bool {
        all_valid(self.source_ids) && self.source_ids.len() > 0 && trimmed(self.description).len() > 0
    }
}

pub open spec fn tidy_sections(v: Seq<SpecSectionView>) -> Seq<SpecSectionView> {
    v.map_values(|s: SpecSectionView| s.tidy())
}

pub open spec fn tidy_losses(v: Seq<SpecLossView>) -> Seq<SpecLossView> {
    v.map_values(|l: SpecLossView| l.tidy())
}

/// `ProjectionSection::new`: fails where an identifier is not valid or a text
/// is blank, for a reason that depends on the record alone; white space around
/// the texts is dropped.
#[verifier::external_body]
fn make_section(s: &SpecSection) -> (r: Result<ProjectionSection, CoreError>)
    ensures
        r.is_ok() == s@.is_complete(),
        r matches Ok(x) ==> section_parts(x) == s@.tidy(),
        r matches Err(e) ==> error_message(e) == section_error(s@),
{
    let ids = s.source_ids.iter().map(Id::new).collect::<Result<Vec<_>, _>>()?;
    ProjectionSection::new(s.title.as_str(), s.body.as_str(), ids)
}

/// `InformationLoss::declared`: fails where an identifier is not valid, where
/// there is none or where the description is blank, for a reason that depends
/// on the record alone; white space around the texts is dropped.
#[verifier::external_body]
fn make_loss(l: &SpecLoss) -> (r: Result<InformationLoss, CoreError>)
    ensures
        r.is_ok() == l@.is_complete(),
        r matches Ok(x) ==> loss_parts(x) == l@.tidy(),
        r matches Err(e) ==> error_message(e) == loss_error(l@),
{
    let ids = l.source_ids.iter().map(Id::new).collect::<Result<Vec<_>, _>>()?;
    InformationLoss::declared(l.description.as_str(), ids)
}

/// `ProjectionResult::new` for a report to human readers in Markdown: the
/// sections, the cells they stand for and the losses as one projection. It
/// succeeds where there are titled sections, cells and losses, and where the
/// identifiers are valid; white space around the cells' is dropped.
#[verifier::external_body]
fn human_report(
    id: &str,
    sections: Vec<ProjectionSection>,
    sources: &Vec<String>,
    losses: Vec<InformationLoss>,
) -> (r: Result<ProjectionResult, CoreError>)
    requires
        sections@.len() > 0,
        forall|i: int| 0 <= i < sections@.len() ==> is_title(section_parts(#[trigger] sections@[i]).title),
        sources@.len() > 0,
        all_valid(texts(sources@)),
        losses@.len() > 0,
    ensures
        r.is_ok() == valid_id(id@),
        r matches Ok(p) ==> projection_parts(p) == (ProjectionParts {
            sections: sections@.map_values(|s: ProjectionSection| section_parts(s)),
            sources: all_trimmed(texts(sources@)),
            losses: losses@.map_values(|l: InformationLoss| loss_parts(l)),
        }),
        r matches Err(e) ==> error_message(e) == id_error(id@),
{
    let id = Id::new(id)?;
    let schema = OutputSchema::sections(sections.iter().map(|s| s.title.as_str()))?;
    let sources = sources.iter().map(Id::new).collect::<Result<Vec<_>, _>>()?;
    let (audience, purpose) = (ProjectionAudience::Human, ProjectionPurpose::Report);
    let output = ProjectionOutput::sections(sections)?;
    ProjectionResult::new(id, audience, purpose, schema, RendererKind::Markdown, output, sources, losses)
}

/// The cells that sections stand for, in order.
pub open spec fn all_sources(v: Seq<SpecSectionView>) -> Seq<Seq<char>>
    decreases v.len(),
{
    if v.len() == 0 {
        Seq::empty()
    } else {
        all_sources(v.drop_last()) + v.last().source_ids
    }
}

/// The parts of a projection of sections and losses.
pub open spec fn parts_of(sections: Seq<SpecSectionView>, losses: Seq<SpecLossView>) -> ProjectionParts {
    ProjectionParts {
        sections: tidy_sections(sections),
        sources: all_trimmed(all_sources(sections)),
        losses: tidy_losses(losses),
    }
}

proof fn lemma_all_sources(v: Seq<SpecSectionView>)
    requires
        sections_error(v) is None,
    ensures
        all_valid(all_sources(v)),
        v.len() > 0 ==> all_sources(v).len() >= v[0].source_ids.len(),
    decreases v.len(),
{
    if v.len() > 0 {
        let front = v.drop_last();
        lemma_all_sources(front);
        let before = all_sources(front);
        let last = v.last().source_ids;
        assert(v.last().is_complete());
        assert forall|i: int| 0 <= i < all_sources(v).len() implies valid_id(#[trigger] all_sources(v)[i]) by {
            if i < before.len() {
                assert(valid_id(before[i]));
            } else {
                assert(valid_id(last[i - before.len()]));
            }
        }
        if v.len() > 1 {
            assert(front[0] == v[0]);
        }
    }
}

fn collect_sources(sections: &Vec<SpecSection>) -> (r: Vec<String>)
    ensures
        texts(r@) == all_sources(section_views(sections@)),
{
    let ghost all = section_views(sections@);
    let mut r: Vec<String> = Vec::new();
    let mut i: usize = 0;
    assert(texts(r@) =~= all_sources(all.take(0)));
    while i < sections.len()
        invariant
            i <= sections@.len(),
            all == section_views(sections@),
            texts(r@) == all_sources(all.take(i as int)),
        decreases sections.len() - i,
    {
        assert(all[i as int] == sections@[i as int]@);
        assert(all.take(i + 1).drop_last() =~= all.take(i as int));
        let ghost before = r@;
        let mut more = copy_texts(sections[i].source_ids.as_slice());
        let ghost m = more@;
        r.append(&mut more);
        assert(r@ =~= before + m);
        assert(texts(r@) =~= texts(before) + texts(m));
        i = i + 1;
    }
    assert(all.take(i as int) =~= all);
    r
}

/// A text without white space at its ends that is not empty.
pub open spec fn is_title(s: Seq<char>) -> bool {
    s.len() > 0 && trimmed(s) == s
}

/// Why the first sections cannot be made.
pub open spec fn sections_error(v: Seq<SpecSectionView>) -> Option<Seq<char>>
    decreases v.len(),
{
    if v.len() == 0 {
        None
    } else {
        match sections_error(v.drop_last()) {
            Some(e) => Some(e),
            None => if v.last().is_complete() {
                None
            } else {
                Some(section_error(v.last()))
            },
        }
    }
}

/// Why the first losses cannot be declared.
pub open spec fn losses_error(v: Seq<SpecLossView>) -> Option<Seq<char>>
    decreases v.len(),
{
    if v.len() == 0 {
        None
    } else {
        match losses_error(v.drop_last()) {
            Some(e) => Some(e),
            None => if v.last().is_complete() {
                None
            } else {
                Some(loss_error(v.last()))
            },
        }
    }
}

pub open spec fn projection_id(space: Seq<char>) -> Seq<char> {
    "projection:spec:"@ + space
}

/// Why a projection cannot be made of sections and losses, if it cannot.
pub open spec fn projection_error(
    space: Seq<char>,
    sections: Seq<SpecSectionView>,
    losses: Seq<SpecLossView>,
) -> Option<Seq<char>> {
    match sections_error(sections) {
        Some(e) => Some(e),
        None => match losses_error(losses) {
            Some(e) => Some(e),
            None => if valid_id(projection_id(space)) {
                None
            } else {
                Some(id_error(projection_id(space)))
            },
        },
    }
}

proof fn lemma_section_error_stays(v: Seq<SpecSectionView>, i: int)
    requires
        0 <= i <= v.len(),
        sections_error(v.take(i)) is Some,
    ensures
        sections_error(v) == sections_error(v.take(i)),
    decreases v.len() - i,
{
    if i < v.len() {
        assert(v.take(i + 1).drop_last() =~= v.take(i));
        lemma_section_error_stays(v, i + 1);
    } else {
        assert(v.take(i) =~= v);
    }
}

proof fn lemma_sections_complete(v: Seq<SpecSectionView>, i: int)
    requires
        sections_error(v) is None,
        0 <= i < v.len(),
    ensures
        v[i].is_complete(),
    decreases v.len(),
{
    if i < v.len() - 1 {
        lemma_sections_complete(v.drop_last(), i);
    }
}

proof fn lemma_loss_error_stays(v: Seq<SpecLossView>, i: int)
    requires
        0 <= i <= v.len(),
        losses_error(v.take(i)) is Some,
    ensures
        losses_error(v) == losses_error(v.take(i)),
    decreases v.len() - i,
{
    if i < v.len() {
        assert(v.take(i + 1).drop_last() =~= v.take(i));
        lemma_loss_error_stays(v, i + 1);
    } else {
        assert(v.take(i) =~= v);
    }
}

/// Builds a projection of sections and losses.
fn build_projection(space: &str, sections: &Vec<SpecSection>, losses: &Vec<SpecLoss>) -> (r: Result<
    ProjectionResult,
    String,
>)
    requires
        sections@.len() > 0,
        sections@[0]@.source_ids.len() > 0,
        losses@.len() > 0,
    ensures
        match r {
            Ok(p) => projection_error(space@, section_views(sections@), loss_views(losses@)) is None
                && projection_parts(p) == parts_of(section_views(sections@), loss_views(losses@)),
            Err(e) => projection_error(space@, section_views(sections@), loss_views(losses@)) == Some(e@),
        },
{
    let ghost sv = section_views(sections@);
    let ghost lv = loss_views(losses@);
    let mut made: Vec<ProjectionSection> = Vec::new();
    let mut i: usize = 0;
    while i < sections.len()
        invariant
            i <= sections@.len(),
            sv == section_views(sections@),
            sections_error(sv.take(i as int)) is None,
            made@.map_values(|s: ProjectionSection| section_parts(s)) == tidy_sections(sv).take(i as int),
        decreases sections.len() - i,
    {
        assert(sv[i as int] == sections@[i as int]@);
        assert(sv.take(i + 1).drop_last() =~= sv.take(i as int));
        match make_section(&sections[i]) {
            Ok(x) => {
                let ghost before = made@.map_values(|s: ProjectionSection| section_parts(s));
                made.push(x);
                assert(made@.map_values(|s: ProjectionSection| section_parts(s)) =~= before.push(section_parts(x)));
                assert(tidy_sections(sv).take(i + 1) =~= tidy_sections(sv).take(i as int).push(sv[i as int].tidy()));
            },
            Err(e) => {
                proof {
                    lemma_section_error_stays(sv, i + 1);
                }
                return Err(message_of(&e));
            },
        }
        i = i + 1;
    }
    assert(sv.take(i as int) =~= sv);
    assert(tidy_sections(sv).take(i as int) =~= tidy_sections(sv));
    let mut declared: Vec<InformationLoss> = Vec::new();
    let mut k: usize = 0;
    while k < losses.len()
        invariant
            k <= losses@.len(),
            sv == section_views(sections@),
            lv == loss_views(losses@),
            sections_error(sv) is None,
            losses_error(lv.take(k as int)) is None,
            declared@.map_values(|l: InformationLoss| loss_parts(l)) == tidy_losses(lv).take(k as int),
        decreases losses.len() - k,
    {
        assert(lv[k as int] == losses@[k as int]@);
        assert(lv.take(k + 1).drop_last() =~= lv.take(k as int));
        match make_loss(&losses[k]) {
            Ok(x) => {
                let ghost before = declared@.map_values(|l: InformationLoss| loss_parts(l));
                declared.push(x);
                assert(declared@.map_values(|l: InformationLoss| loss_parts(l)) =~= before.push(loss_parts(x)));
                assert(tidy_losses(lv).take(k + 1) =~= tidy_losses(lv).take(k as int).push(lv[k as int].tidy()));
            },
            Err(e) => {
                proof {
                    lemma_loss_error_stays(lv, k + 1);
                }
                return Err(message_of(&e));
            },
        }
        k = k + 1;
    }
    assert(lv.take(k as int) =~= lv);
    assert(tidy_losses(lv).take(k as int) =~= tidy_losses(lv));
    let mut id = "projection:spec:".to_owned();
    id.append(space);
    proof {
        let parts = made@.map_values(|s: ProjectionSection| section_parts(s));
        assert(parts.len() == made@.len());
        assert(declared@.map_values(|l: InformationLoss| loss_parts(l)).len() == declared@.len());
        lemma_all_sources(sv);
        assert forall|j: int| 0 <= j < made@.len() implies is_title(section_parts(#[trigger] made@[j]).title) by {
            assert(parts[j] == section_parts(made@[j]));
            assert(parts[j] == sv[j].tidy());
            lemma_sections_complete(sv, j);
            lemma_trimmed_again(sv[j].title);
        }
        assert(sv[0] == sections@[0]@);
    }
    let sources = collect_sources(sections);
    assert(texts(sources@).len() == sources@.len());
    match human_report(id.as_str(), made, &sources, declared) {
        Ok(p) => Ok(p),
        Err(e) => Err(message_of(&e)),
    }
}

/// `measure_projection_loss`: compares a projection with the cells that it
/// could show. The result depends on the arguments alone; the number of output
/// items is that of the sections. There is none when a cell's identifier is
/// not valid.
#[verifier::external_body]
fn measure(projection: &ProjectionResult, eligible: &Vec<String>) -> (r: Option<LossReport>)
    ensures
        match r {
            Some(x) => measured_loss(projection_parts(*projection), texts(eligible@)) == Some(x@),
            None => measured_loss(projection_parts(*projection), texts(eligible@)) is None,
        },
        r.is_some() == all_valid(texts(eligible@)),
        r matches Some(x) ==> x.projected_cardinality == projection_parts(*projection).sections.len(),
{
    let eligible = eligible.iter().map(Id::new).collect::<Result<Vec<_>, _>>().ok()?;
    let report = measure_projection_loss(projection, &eligible);
    let (metric, ambiguity) = (report.metric, report.ambiguity);
    Some(LossReport {
        severity: format!("{:?}", ambiguity.risk_severity),
        source_cardinality: metric.source_cardinality,
        projected_cardinality: metric.projected_cardinality,
        omitted: metric.omitted_source_ids.into_iter().map(Id::into_string).collect(),
        collapsed_pairs: metric.collapsed_pair_count,
        missing: ambiguity.missing_loss_declarations.len(),
        obstructions: ambiguity.obstructions.iter().map(|o| format!("{o:?}")).collect(),
    })
}

/// A type that gets a section of its own.
pub open spec fn is_section_kind(kind: JavaEntityType) -> bool {
    kind == JavaEntityType::Class || kind == JavaEntityType::Interface || kind == JavaEntityType::Enum || kind
        == JavaEntityType::Record
}

pub open spec fn section_entities(entities: Seq<EntityView>) -> Seq<EntityView>
    decreases entities.len(),
{
    if entities.len() == 0 {
        Seq::empty()
    } else {
        let before = section_entities(entities.drop_last());
        if is_section_kind(entities.last().entity_type) {
            before.push(entities.last())
        } else {
            before
        }
    }
}

/// By name.
pub open spec fn by_fqn() -> spec_fn(EntityView, EntityView) -> bool {
    |a: EntityView, b: EntityView| lex_le(a.fqn, b.fqn)
}

/// The cells of the methods and constructors of a type; all of them, or only
/// those without an annotation.
pub open spec fn member_cells(
    space: SpaceView,
    entities: Seq<EntityView>,
    prefix: Seq<char>,
    only_bare: bool,
) -> Seq<Seq<char>>
    decreases entities.len(),
{
    if entities.len() == 0 {
        Seq::empty()
    } else {
        let before = member_cells(space, entities.drop_last(), prefix, only_bare);
        let e = entities.last();
        if begins(e.fqn, prefix) && is_callable_kind(e.entity_type) && (!only_bare || annotation_of(space, e.cell_id)
            == AnnotationView::empty()) {
            before.push(e.cell_id)
        } else {
            before
        }
    }
}

/// What a section says: the intent of the type, if it is annotated.
pub open spec fn section_body(space: SpaceView, cell_id: Seq<char>) -> Seq<char> {
    match annotation_of(space, cell_id).intent {
        Some(intent) => intent,
        None => "signature only"@,
    }
}

pub open spec fn section_for(space: SpaceView, e: EntityView) -> SpecSectionView {
    SpecSectionView {
        title: e.fqn,
        body: section_body(space, e.cell_id),
        source_ids: seq![e.cell_id] + member_cells(space, space.entities, e.fqn + "."@, false),
    }
}

/// A loss that concerns some cells, if there are any.
pub open spec fn loss_if(ids: Seq<Seq<char>>, what: Seq<char>) -> Seq<SpecLossView> {
    if ids.len() == 0 {
        Seq::empty()
    } else {
        seq![SpecLossView { description: decimal_text(ids.len()) + what, source_ids: ids }]
    }
}

/// The losses of a section: its members are folded into it, and those
/// without an annotation are listed by their signatures only.
pub open spec fn losses_for(space: SpaceView, e: EntityView) -> Seq<SpecLossView> {
    loss_if(
        member_cells(space, space.entities, e.fqn + "."@, false),
        " member(s) folded into class section"@,
    ) + loss_if(
        member_cells(space, space.entities, e.fqn + "."@, true),
        " member(s) listed by signature only (not annotated)"@,
    )
}

/// The losses of all sections.
pub open spec fn all_losses(space: SpaceView, classes: Seq<EntityView>) -> Seq<SpecLossView>
    decreases classes.len(),
{
    if classes.len() == 0 {
        Seq::empty()
    } else {
        all_losses(space, classes.drop_last()) + losses_for(space, classes.last())
    }
}

/// The declared losses; there is at least one.
pub open spec fn declared_losses(space: SpaceView, classes: Seq<EntityView>) -> Seq<SpecLossView> {
    let losses = all_losses(space, classes);
    if losses.len() == 0 {
        seq![SpecLossView { description: "no member-level loss"@, source_ids: seq![classes[0].cell_id] }]
    } else {
        losses
    }
}

/// The name of a cell's entity; its identifier when it has none.
pub open spec fn entity_name_or_id(entities: Seq<EntityView>, id: Seq<char>) -> Seq<char> {
    match entity_with(entities, id) {
        Some(i) => entities[i].fqn,
        None => id,
    }
}

/// What is told of a measurement.
pub open spec fn loss_told(space: SpaceView, report: LossReportView) -> SpecLossReportView {
    let shown = if report.omitted.len() > 5 {
        report.omitted.take(5)
    } else {
        report.omitted
    };
    SpecLossReportView {
        risk_severity: lowercase(report.severity),
        total_sources: report.source_cardinality,
        projected_sections: report.projected_cardinality,
        omitted_count: report.omitted.len() as usize,
        omitted_examples: shown.map_values(|id: Seq<char>| entity_name_or_id(space.entities, id)),
        collapsed_pair_count: report.collapsed_pairs,
        missing_loss_declarations: report.missing,
        obstructions: report.obstructions,
    }
}

/// How much the specification of a space leaves out.
pub open spec fn spec_loss_of(space: SpaceView) -> Result<SpecLossReportView, Seq<char>> {
    let classes = stable_sorted(section_entities(space.entities), by_fqn());
    let sections = classes.map_values(|e: EntityView| section_for(space, e));
    let losses = declared_losses(space, classes);
    if classes.len() == 0 {
        Ok(
            SpecLossReportView {
                risk_severity: "low"@,
                total_sources: space.cells.len() as usize,
                projected_sections: 0,
                omitted_count: 0,
                omitted_examples: Seq::empty(),
                collapsed_pair_count: 0,
                missing_loss_declarations: 0,
                obstructions: Seq::empty(),
            },
        )
    } else {
        match projection_error(space.id, sections, losses) {
            Some(e) => Err("HG projection error: "@ + e),
            None => match measured_loss(parts_of(sections, losses), space.cells.map_values(|c: CellView| c.id)) {
                Some(report) => Ok(loss_told(space, report)),
                None => Err("HG projection error: invalid cell id"@),
            },
        }
    }
}

pub open spec fn spec_loss_result(r: Result<SpecLossReport, String>) -> Result<SpecLossReportView, Seq<char>> {
    match r {
        Ok(x) => Ok(x@),
        Err(e) => Err(e@),
    }
}

fn section_kind(kind: JavaEntityType) -> (r: bool)
    ensures
        r == is_section_kind(kind),
{
    match kind {
        JavaEntityType::Class => true,
        JavaEntityType::Interface => true,
        JavaEntityType::Enum => true,
        JavaEntityType::Record => true,
        _ => false,
    }
}

fn list_classes(entities: &Vec<EntityRecord>) -> (r: Vec<EntityRecord>)
    ensures
        entity_views(r@) == stable_sorted(section_entities(entity_views(entities@)), by_fqn()),
{
    let ghost all = entity_views(entities@);
    let mut r: Vec<EntityRecord> = Vec::new();
    let mut i: usize = 0;
    assert(entity_views(r@) =~= section_entities(all.take(0)));
    while i < entities.len()
        invariant
            i <= entities@.len(),
            all == entity_views(entities@),
            entity_views(r@) == section_entities(all.take(i as int)),
        decreases entities.len() - i,
    {
        assert(all[i as int] == entities@[i as int]@);
        assert(all.take(i + 1).drop_last() =~= all.take(i as int));
        if section_kind(entities[i].entity_type) {
            let ghost before = entity_views(r@);
            let e = entities[i].copied();
            let ghost ev = e@;
            r.push(e);
            assert(entity_views(r@) =~= before.push(ev));
        }
        i = i + 1;
    }
    assert(all.take(i as int) =~= all);
    let ghost le = |a: EntityRecord, b: EntityRecord| by_fqn()(a@, b@);
    let compare = |a: &EntityRecord, b: &EntityRecord| -> (t: bool)
        ensures
            t == by_fqn()(a@, b@),
        { at_most(a.fqn.as_str(), b.fqn.as_str()) };
    proof {
        assert forall|a: EntityRecord, b: EntityRecord| #[trigger] le(a, b) || le(b, a) by {
            lemma_lex_total(a@.fqn, b@.fqn);
        }
        assert forall|a: EntityRecord, b: EntityRecord, c: EntityRecord| #[trigger]
            le(a, b) && #[trigger] le(b, c) implies le(a, c) by {
            lemma_lex_transitive(a@.fqn, b@.fqn, c@.fqn);
        }
        assert(total_preorder(le));
        lemma_sorted_map(r@, |e: EntityRecord| e@, le, by_fqn());
    }
    sort_stable(r, &compare, Ghost(le))
}

fn list_members(space_data: &SpaceData, fqn: &str) -> (r: (Vec<String>, Vec<String>))
    ensures
        texts(r.0@) == member_cells(space_data@, space_data@.entities, fqn@ + "."@, false),
        texts(r.1@) == member_cells(space_data@, space_data@.entities, fqn@ + "."@, true),
{
    let ghost space = space_data@;
    let ghost all = space.entities;
    let mut prefix = fqn.to_owned();
    prefix.append(".");
    let mut members: Vec<String> = Vec::new();
    let mut bare: Vec<String> = Vec::new();
    let mut i: usize = 0;
    assert(texts(members@) =~= Seq::empty());
    assert(texts(bare@) =~= Seq::empty());
    while i < space_data.entities.len()
        invariant
            i <= space_data.entities@.len(),
            space == space_data@,
            all == space.entities,
            prefix@ == fqn@ + "."@,
            texts(members@) == member_cells(space, all.take(i as int), prefix@, false),
            texts(bare@) == member_cells(space, all.take(i as int), prefix@, true),
        decreases space_data.entities.len() - i,
    {
        let e = &space_data.entities[i];
        assert(all[i as int] == e@);
        assert(all.take(i + 1).drop_last() =~= all.take(i as int));
        if callable(e.entity_type) && starts_with(chars_of(e.fqn.as_str()).as_slice(), prefix.as_str()) {
            let ghost before = texts(members@);
            members.push(e.cell_id.clone());
            assert(texts(members@) =~= before.push(e@.cell_id));
            let annotation = annotation_at(space_data, e.cell_id.as_str());
            if !annotation.has_content() {
                let ghost b = texts(bare@);
                bare.push(e.cell_id.clone());
                assert(texts(bare@) =~= b.push(e@.cell_id));
            }
        }
        i = i + 1;
    }
    assert(all.take(i as int) =~= all);
    (members, bare)
}

fn add_loss(losses: &mut Vec<SpecLoss>, ids: Vec<String>, what: &str)
    ensures
        loss_views(final(losses)@) == loss_views(old(losses)@) + loss_if(texts(ids@), what@),
{
    let ghost before = loss_views(losses@);
    assert(texts(ids@).len() == ids@.len());
    if ids.len() > 0 {
        let mut description = decimal(ids.len() as u128);
        description.append(what);
        let item = SpecLoss { description, source_ids: ids };
        let ghost iv = item@;
        losses.push(item);
        assert(loss_views(losses@) =~= before + seq![iv]);
    } else {
        assert(before + Seq::<SpecLossView>::empty() =~= before);
    }
}

/// Tells of a measurement.
pub fn tell_loss(space_data: &SpaceData, report: LossReport) -> (r: SpecLossReport)
    ensures
        r@ == loss_told(space_data@, report@),
{
    let ghost space = space_data@;
    let ghost rv = report@;
    let ghost shown = if rv.omitted.len() > 5 {
        rv.omitted.take(5)
    } else {
        rv.omitted
    };
    let ghost names = shown.map_values(|id: Seq<char>| entity_name_or_id(space.entities, id));
    let mut omitted_examples: Vec<String> = Vec::new();
    let mut i: usize = 0;
    while i < report.omitted.len() && i < 5
        invariant
            space == space_data@,
            rv == report@,
            rv.omitted.len() == report.omitted@.len(),
            shown == if rv.omitted.len() > 5 {
                rv.omitted.take(5)
            } else {
                rv.omitted
            },
            names == shown.map_values(|id: Seq<char>| entity_name_or_id(space.entities, id)),
            i <= shown.len(),
            i <= 5,
            texts(omitted_examples@) == names.take(i as int),
        decreases report.omitted.len() - i,
    {
        let ghost before = texts(omitted_examples@);
        assert(shown[i as int] == report.omitted@[i as int]@);
        let name = match find_entity(&space_data.entities, report.omitted[i].as_str()) {
            Some(at) => {
                assert(space.entities[at as int] == space_data.entities@[at as int]@);
                space_data.entities[at].fqn.clone()
            },
            None => report.omitted[i].clone(),
        };
        let ghost x = name@;
        assert(x == names[i as int]);
        omitted_examples.push(name);
        i = i + 1;
        assert(texts(omitted_examples@) =~= before.push(x));
        assert(texts(omitted_examples@) =~= names.take(i as int));
    }
    assert(names.take(i as int) =~= names);
    SpecLossReport {
        risk_severity: report.severity.as_str().to_lowercase(),
        total_sources: report.source_cardinality,
        projected_sections: report.projected_cardinality,
        omitted_count: report.omitted.len(),
        omitted_examples,
        collapsed_pair_count: report.collapsed_pairs,
        missing_loss_declarations: report.missing,
        obstructions: report.obstructions,
    }
}

fn cell_ids(cells: &Vec<Cell>) -> (r: Vec<String>)
    ensures
        texts(r@) == cell_views(cells@).map_values(|c: CellView| c.id),
{
    let mut r: Vec<String> = Vec::new();
    let mut i: usize = 0;
    while i < cells.len()
        invariant
            i <= cells@.len(),
            r@.len() == i,
            forall|k: int| 0 <= k < i ==> (#[trigger] r@[k])@ == cells@[k].id@,
        decreases cells.len() - i,
    {
        r.push(cells[i].id.clone());
        i = i + 1;
    }
    assert(texts(r@) =~= cell_views(cells@).map_values(|c: CellView| c.id));
    r
}

fn list_sections(space_data: &SpaceData, classes: &Vec<EntityRecord>) -> (r: (Vec<SpecSection>, Vec<SpecLoss>))
    ensures
        section_views(r.0@) == entity_views(classes@).map_values(|e: EntityView| section_for(space_data@, e)),
        loss_views(r.1@) == all_losses(space_data@, entity_views(classes@)),
{
    let ghost space = space_data@;
    let ghost all = entity_views(classes@);
    let ghost expected = all.map_values(|e: EntityView| section_for(space, e));
    let mut sections: Vec<SpecSection> = Vec::new();
    let mut losses: Vec<SpecLoss> = Vec::new();
    let mut i: usize = 0;
    assert(section_views(sections@) =~= expected.take(0));
    assert(loss_views(losses@) =~= all_losses(space, all.take(0)));
    while i < classes.len()
        invariant
            i <= classes@.len(),
            space == space_data@,
            all == entity_views(classes@),
            expected == all.map_values(|e: EntityView| section_for(space, e)),
            section_views(sections@) == expected.take(i as int),
            loss_views(losses@) == all_losses(space, all.take(i as int)),
        decreases classes.len() - i,
    {
        let e = &classes[i];
        assert(all[i as int] == e@);
        assert(all.take(i + 1).drop_last() =~= all.take(i as int));
        let (members, bare) = list_members(space_data, e.fqn.as_str());
        let mut source_ids: Vec<String> = Vec::new();
        source_ids.push(e.cell_id.clone());
        let ghost first = source_ids@;
        let mut copy = copy_texts(members.as_slice());
        let ghost c = copy@;
        source_ids.append(&mut copy);
        assert(source_ids@ =~= first + c);
        assert(texts(source_ids@) =~= seq![e@.cell_id] + texts(members@));
        let ghost start = loss_views(losses@);
        add_loss(&mut losses, members, " member(s) folded into class section");
        add_loss(&mut losses, bare, " member(s) listed by signature only (not annotated)");
        assert(loss_views(losses@) =~= start + losses_for(space, e@));
        let annotation = annotation_at(space_data, e.cell_id.as_str());
        let body = match annotation.intent {
            Some(intent) => intent,
            None => "signature only".to_owned(),
        };
        let section = SpecSection { title: e.fqn.clone(), body, source_ids };
        let ghost sv = section@;
        let ghost before = section_views(sections@);
        assert(sv =~= section_for(space, e@));
        sections.push(section);
        i = i + 1;
        assert(section_views(sections@) =~= before.push(sv));
        assert(section_views(sections@) =~= expected.take(i as int));
    }
    assert(expected.take(i as int) =~= expected);
    assert(all.take(i as int) =~= all);
    (sections, losses)
}

/// Builds the projection of a space's types, with their members folded in, and
/// measures what it leaves out.
pub fn spec_loss_report(space_data: &SpaceData) -> (r: Result<SpecLossReport, String>)
    ensures
        spec_loss_result(r) == spec_loss_of(space_data@),
        r matches Ok(x) ==> x.projected_sections == section_entities(space_data@.entities).len(),
{
    let ghost space = space_data@;
    assert(entity_views(space_data.entities@) == space.entities);
    let classes = list_classes(&space_data.entities);
    proof {
        lemma_stable_sorted(section_entities(space.entities), by_fqn());
        assert(entity_views(classes@).len() == classes@.len());
    }
    if classes.len() == 0 {
        let omitted_examples: Vec<String> = Vec::new();
        let obstructions: Vec<String> = Vec::new();
        assert(texts(omitted_examples@) =~= Seq::empty());
        assert(texts(obstructions@) =~= Seq::empty());
        return Ok(
            SpecLossReport {
                risk_severity: "low".to_owned(),
                total_sources: space_data.cells.len(),
                projected_sections: 0,
                omitted_count: 0,
                omitted_examples,
                collapsed_pair_count: 0,
                missing_loss_declarations: 0,
                obstructions,
            },
        );
    }
    let (sections, mut losses) = list_sections(space_data, &classes);
    assert(loss_views(losses@).len() == losses@.len());
    if losses.len() == 0 {
        let mut source_ids: Vec<String> = Vec::new();
        source_ids.push(classes[0].cell_id.clone());
        assert(entity_views(classes@)[0] == classes@[0]@);
        assert(texts(source_ids@) =~= seq![entity_views(classes@)[0].cell_id]);
        let item = SpecLoss { description: "no member-level loss".to_owned(), source_ids };
        let ghost iv = item@;
        losses.push(item);
        assert(loss_views(losses@) =~= seq![iv]);
    }
    let ghost cv = entity_views(classes@);
    assert(loss_views(losses@) == declared_losses(space, cv));
    proof {
        assert(section_views(sections@).len() == cv.len());
        assert(section_views(sections@)[0] == sections@[0]@);
        assert(section_views(sections@)[0] == section_for(space, cv[0]));
        assert(loss_views(losses@).len() == losses@.len());
    }
    let projection = match build_projection(space_data.space.id.as_str(), &sections, &losses) {
        Ok(p) => p,
        Err(e) => {
            let mut reason = "HG projection error: ".to_owned();
            reason.append(e.as_str());
            return Err(reason);
        },
    };
    let eligible = cell_ids(&space_data.cells);
    match measure(&projection, &eligible) {
        Some(report) => Ok(tell_loss(space_data, report)),
        None => Err("HG projection error: invalid cell id".to_owned()),
    }
}

} // verus!
