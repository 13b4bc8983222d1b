//! Compares what two derivations say of the same cell.

use higher_graphen_core::{CoreError, CorrespondenceCell, GluingResult, Id, ParticipantRef};
use higher_graphen_reasoning::correspondence::{
    derive_correspondence_candidates, CorrespondenceDetectionInput, CorrespondenceSubject, TypedRelation as Relation,
};
use higher_graphen_reasoning::gluing::attempt_gluing;
use vstd::prelude::*;

use crate::lines::{lemma_not_blank, trimmed};
use crate::model::graph::LinkView;
use crate::model::ids::{error_message, id_error, message_of, new_id};
use crate::model::space_data::{SpaceData, SpaceView};
use crate::model::store::valid_id;
use crate::query::resolve::{fqn_of_cell, name_of};
use crate::text::same;

verus! {

/// How far two derivations agree.
#[derive(Debug, Clone, Copy, PartialEq, Eq, Structural)]
pub enum CorrespondenceAgreement {
    Agreeing,
    PartialAgreement,
    Conflicting,
    NoCorrespondence,
}

/// What comes of gluing two derivations.
#[derive(Debug, Clone, Copy, PartialEq, Eq, Structural)]
pub enum GluingOutcome {
    Success,
    Candidate,
    Failure,
}

#[derive(Debug)]
pub struct CorrespondenceResult {
    pub cell_id: String,
    pub agreement: CorrespondenceAgreement,
    pub overlap_count: usize,
    pub difference_count: usize,
}

#[verifier::ext_equal]
pub struct CorrespondenceResultView {
    pub cell_id: Seq<char>,
    pub agreement: CorrespondenceAgreement,
    pub overlap_count: nat,
    pub difference_count: nat,
}

impl View for CorrespondenceResult {
    type V = CorrespondenceResultView;

    open spec fn view(&self) -> CorrespondenceResultView {
        CorrespondenceResultView {
            cell_id: self.cell_id@,
            agreement: self.agreement,
            overlap_count: self.overlap_count as nat,
            difference_count: self.difference_count as nat,
        }
    }
}

/// What is known of a candidate: how many witnesses overlap and how many
/// differ, and what comes of gluing it, if it can be tried.
#[derive(Debug, Clone, Copy, PartialEq, Eq, Structural)]
pub struct CandidateFacts {
    pub overlaps: usize,
    pub differences: usize,
    pub gluing: Option<GluingOutcome>,
}

/// A relation by the names of its ends.
#[derive(Debug)]
pub struct TypedRelation {
    pub subject: String,
    pub relation: String,
    pub object: String,
}

#[verifier::ext_equal]
pub struct TypedRelationView {
    pub subject: Seq<char>,
    pub relation: Seq<char>,
    pub object: Seq<char>,
}

impl View for TypedRelation {
    type V = TypedRelationView;

    open spec fn view(&self) -> TypedRelationView {
        TypedRelationView {
            subject: self.subject@,
            relation: self.relation@,
            object: self.object@,
        }
    }
}

/// What one derivation says of a cell.
#[derive(Debug)]
pub struct SubjectRecord {
    pub cell_id: String,
    pub role: String,
    pub label: String,
    pub modality: String,
    pub relations: Vec<TypedRelation>,
}

#[verifier::ext_equal]
pub struct SubjectRecordView {
    pub cell_id: Seq<char>,
    pub role: Seq<char>,
    pub label: Seq<char>,
    pub modality: Seq<char>,
    pub relations: Seq<TypedRelationView>,
}

impl View for SubjectRecord {
    type V = SubjectRecordView;

    open spec fn view(&self) -> SubjectRecordView {
        SubjectRecordView {
            cell_id: self.cell_id@,
            role: self.role@,
            label: self.label@,
            modality: self.modality@,
            relations: self.relations@.map_values(|x: TypedRelation| x@),
        }
    }
}

/// A correspondence of the graph library.
#[verifier::external_type_specification]
#[verifier::external_body]
pub struct ExCorrespondenceCell(CorrespondenceCell);

/// How many witnesses of a correspondence overlap, and how many differ.
pub uninterp spec fn witnesses_of(c: CorrespondenceCell) -> (usize, usize);

/// What comes of gluing a correspondence.
pub uninterp spec fn gluing_of(c: CorrespondenceCell) -> Option<GluingOutcome>;

/// A subject of the graph library.
#[verifier::external_type_specification]
#[verifier::external_body]
pub struct ExCorrespondenceSubject(CorrespondenceSubject);

/// What a subject holds.
pub uninterp spec fn subject_parts(s: CorrespondenceSubject) -> SubjectRecordView;

/// The correspondences between two subjects, or why there are none.
pub uninterp spec fn correspondences(
    context: Seq<char>,
    provenance: Seq<char>,
    left: SubjectRecordView,
    right: SubjectRecordView,
) -> Result<Seq<CorrespondenceCell>, Seq<char>>;

impl SubjectRecordView {
    /// The record without white space around its texts.
    pub open spec fn tidy(self) -> Self {
        SubjectRecordView {
            cell_id: trimmed(self.cell_id),
            role: trimmed(self.role),
            label: trimmed(self.label),
            modality: trimmed(self.modality),
            relations: self.relations,
        }
    }

    pub open spec fn is_complete(self) -> bool {
        valid_id(self.cell_id) && trimmed(self.role).len() > 0 && trimmed(self.label).len() > 0 && trimmed(
            self.modality,
        ).len() > 0
    }
}

/// `CorrespondenceSubject::new` for a cell, with its role, normalized label,
/// modality and typed relations. It fails where the cell is no identifier or
/// one of the texts is blank; white space around the texts is dropped.
#[verifier::external_body]
fn make_subject(s: &SubjectRecord) -> (r: Result<CorrespondenceSubject, CoreError>)
    ensures
        r.is_ok() == s@.is_complete(),
        r matches Ok(x) ==> subject_parts(x) == s@.tidy(),
{
    let relation = |t: &TypedRelation| Relation {
        subject: t.subject.clone(),
        relation: t.relation.clone(),
        object: t.object.clone(),
    };
    let made = CorrespondenceSubject::new(ParticipantRef::Cell(Id::new(s.cell_id.as_str())?));
    let made = made.with_role(s.role.as_str())?.with_normalized_label(s.label.as_str())?;
    let made = made.with_modality(s.modality.as_str())?;
    Ok(made.with_typed_relations(s.relations.iter().map(relation).collect()))
}

/// `derive_correspondence_candidates` over two subjects: the correspondences
/// depend on the arguments alone. There is one at most, and there is one where
/// both subjects are the same cell.
#[verifier::external_body]
fn derive_candidates(
    context: &str,
    provenance: &str,
    left: CorrespondenceSubject,
    right: CorrespondenceSubject,
) -> (r: Result<Vec<CorrespondenceCell>, CoreError>)
    ensures
        correspondences(context@, provenance@, subject_parts(left), subject_parts(right)) == match r {
            Ok(v) => Ok::<Seq<CorrespondenceCell>, Seq<char>>(v@),
            Err(e) => Err(error_message(e)),
        },
        r matches Ok(v) ==> v@.len() <= 1,
        r matches Ok(v) ==> subject_parts(left).cell_id == subject_parts(right).cell_id ==> v@.len() == 1,
{
    let input = CorrespondenceDetectionInput::new(Id::new(context)?, Id::new(provenance)?, vec![left, right]);
    Ok(derive_correspondence_candidates(input)?.into_candidates())
}

/// The numbers of a `CorrespondenceCell`'s witnesses.
#[verifier::external_body]
fn count_witnesses(c: &CorrespondenceCell) -> (r: (usize, usize))
    ensures
        r == witnesses_of(*c),
{
    (c.overlap_witnesses.len(), c.difference_witnesses.len())
}

/// `attempt_gluing`: what comes of it depends on the correspondence alone.
#[verifier::external_body]
fn glue(c: &CorrespondenceCell) -> (r: Option<GluingOutcome>)
    ensures
        r == gluing_of(*c),
{
    match attempt_gluing(c).ok()?.result {
        GluingResult::Success { .. } => Some(GluingOutcome::Success),
        GluingResult::Candidate { .. } => Some(GluingOutcome::Candidate),
        GluingResult::Failure { .. } => Some(GluingOutcome::Failure),
    }
}

pub open spec fn facts(c: CorrespondenceCell) -> CandidateFacts {
    CandidateFacts { overlaps: witnesses_of(c).0, differences: witnesses_of(c).1, gluing: gluing_of(c) }
}

pub open spec fn overlap_total(v: Seq<CandidateFacts>) -> nat
    decreases v.len(),
{
    if v.len() == 0 {
        0
    } else {
        overlap_total(v.drop_last()) + v.last().overlaps as nat
    }
}

pub open spec fn difference_total(v: Seq<CandidateFacts>) -> nat
    decreases v.len(),
{
    if v.len() == 0 {
        0
    } else {
        difference_total(v.drop_last()) + v.last().differences as nat
    }
}

pub open spec fn some_gluing(v: Seq<CandidateFacts>, outcome: GluingOutcome) -> bool {
    exists|i: int| 0 <= i < v.len() && (#[trigger] v[i]).gluing == Some(outcome)
}

/// Derivations conflict where gluing fails, and agree where it succeeds and
/// nothing differs.
pub open spec fn agreement(v: Seq<CandidateFacts>) -> CorrespondenceAgreement {
    if v.len() == 0 {
        CorrespondenceAgreement::NoCorrespondence
    } else if some_gluing(v, GluingOutcome::Failure) {
        CorrespondenceAgreement::Conflicting
    } else if some_gluing(v, GluingOutcome::Success) && difference_total(v) == 0 {
        CorrespondenceAgreement::Agreeing
    } else {
        CorrespondenceAgreement::PartialAgreement
    }
}

pub open spec fn correspondence_summary(cell_id: Seq<char>, v: Seq<CandidateFacts>) -> CorrespondenceResultView {
    CorrespondenceResultView {
        cell_id,
        agreement: agreement(v),
        overlap_count: overlap_total(v),
        difference_count: difference_total(v),
    }
}

proof fn lemma_totals(v: Seq<CandidateFacts>, i: int)
    requires
        0 <= i <= v.len(),
    ensures
        overlap_total(v.take(i)) <= overlap_total(v),
        difference_total(v.take(i)) <= difference_total(v),
    decreases v.len(),
{
    if i < v.len() {
        assert(v.take(i) =~= v.drop_last().take(i));
        lemma_totals(v.drop_last(), i);
    } else {
        assert(v.take(i) =~= v);
    }
}

/// Sums candidates up.
pub fn summarize(cell_id: &str, candidates: &Vec<CandidateFacts>) -> (r: CorrespondenceResult)
    requires
        overlap_total(candidates@) <= usize::MAX,
        difference_total(candidates@) <= usize::MAX,
    ensures
        r@ == correspondence_summary(cell_id@, candidates@),
{
    let ghost all = candidates@;
    let mut overlap_count: usize = 0;
    let mut difference_count: usize = 0;
    let mut has_failure = false;
    let mut has_success = false;
    let mut i: usize = 0;
    while i < candidates.len()
        invariant
            i <= candidates@.len(),
            all == candidates@,
            overlap_total(all) <= usize::MAX,
            difference_total(all) <= usize::MAX,
            overlap_count == overlap_total(all.take(i as int)),
            difference_count == difference_total(all.take(i as int)),
            has_failure == some_gluing(all.take(i as int), GluingOutcome::Failure),
            has_success == some_gluing(all.take(i as int), GluingOutcome::Success),
        decreases candidates.len() - i,
    {
        let c = candidates[i];
        let ghost now = all.take(i as int);
        let ghost next = all.take(i + 1);
        proof {
            assert(next.drop_last() =~= now);
            assert(next.last() == c);
            lemma_totals(all, i + 1);
            assert forall|o: GluingOutcome| #[trigger] some_gluing(next, o) == (some_gluing(now, o) || c.gluing == Some(o)) by {
                if some_gluing(now, o) {
                    let k = choose|k: int| 0 <= k < now.len() && (#[trigger] now[k]).gluing == Some(o);
                    assert(next[k] == now[k]);
                }
                if c.gluing == Some(o) {
                    assert(next[i as int] == c);
                }
                if some_gluing(next, o) {
                    let k = choose|k: int| 0 <= k < next.len() && (#[trigger] next[k]).gluing == Some(o);
                    if k < i {
                        assert(now[k] == next[k]);
                    }
                }
            }
        }
        overlap_count = overlap_count + c.overlaps;
        difference_count = difference_count + c.differences;
        match c.gluing {
            Some(GluingOutcome::Success) => {
                has_success = true;
            },
            Some(GluingOutcome::Failure) => {
                has_failure = true;
            },
            _ => {},
        }
        i = i + 1;
    }
    assert(all.take(i as int) =~= all);
    let agreement = if candidates.len() == 0 {
        CorrespondenceAgreement::NoCorrespondence
    } else if has_failure {
        CorrespondenceAgreement::Conflicting
    } else if has_success && difference_count == 0 {
        CorrespondenceAgreement::Agreeing
    } else {
        CorrespondenceAgreement::PartialAgreement
    };
    CorrespondenceResult { cell_id: cell_id.to_owned(), agreement, overlap_count, difference_count }
}

pub open spec fn context_of(cell_id: Seq<char>) -> Seq<char> {
    "ctx:corroboration:"@ + cell_id
}

pub open spec fn provenance_of(cell_id: Seq<char>) -> Seq<char> {
    "prov:corroboration:"@ + cell_id
}

/// Why a cell cannot be compared: it, or an identifier made of it, is not valid.
pub open spec fn comparison_error(cell_id: Seq<char>) -> Option<Seq<char>> {
    if !valid_id(cell_id) {
        Some(id_error(cell_id))
    } else if !valid_id(context_of(cell_id)) {
        Some(id_error(context_of(cell_id)))
    } else if !valid_id(provenance_of(cell_id)) {
        Some(id_error(provenance_of(cell_id)))
    } else {
        None
    }
}

/// What the parse of the sources says of a cell.
pub open spec fn observed(cell_id: Seq<char>, relations: Seq<TypedRelationView>) -> SubjectRecordView {
    SubjectRecordView {
        cell_id,
        role: "tree-sitter"@,
        label: "ts:"@ + cell_id,
        modality: "observed"@,
        relations,
    }
}

/// What the language model says of a cell.
pub open spec fn inferred(cell_id: Seq<char>, relations: Seq<TypedRelationView>) -> SubjectRecordView {
    SubjectRecordView {
        cell_id,
        role: "llm-behavior"@,
        label: "llm:"@ + cell_id,
        modality: "inferred"@,
        relations,
    }
}

pub open spec fn relation_views(v: Seq<TypedRelation>) -> Seq<TypedRelationView> {
    v.map_values(|x: TypedRelation| x@)
}

pub open spec fn comparison(
    cell_id: Seq<char>,
    seen: Seq<TypedRelationView>,
    said: Seq<TypedRelationView>,
) -> Result<CorrespondenceResultView, Seq<char>> {
    match comparison_error(cell_id) {
        Some(e) => Err(e),
        None => match correspondences(
            context_of(cell_id),
            provenance_of(cell_id),
            observed(cell_id, seen).tidy(),
            inferred(cell_id, said).tidy(),
        ) {
            Ok(v) => Ok(correspondence_summary(cell_id, v.map_values(|c: CorrespondenceCell| facts(c)))),
            Err(e) => Err(e),
        },
    }
}

/// Compares what the sources show of a cell with what the model says of it.
pub fn check_derivation_correspondence(
    _space_data: &SpaceData,
    cell_id: &str,
    treesitter_relations: Vec<TypedRelation>,
    llm_relations: Vec<TypedRelation>,
) -> (r: Result<CorrespondenceResult, String>)
    ensures
        match r {
            Ok(x) => comparison(cell_id@, relation_views(treesitter_relations@), relation_views(llm_relations@)) == Ok::<
                CorrespondenceResultView,
                Seq<char>,
            >(x@),
            Err(e) => comparison(cell_id@, relation_views(treesitter_relations@), relation_views(llm_relations@))
                == Err::<CorrespondenceResultView, Seq<char>>(e@),
        },
{
    match new_id(cell_id) {
        Ok(_) => {},
        Err(e) => {
            return Err(e);
        },
    }
    let mut context = "ctx:corroboration:".to_owned();
    context.append(cell_id);
    match new_id(context.as_str()) {
        Ok(_) => {},
        Err(e) => {
            return Err(e);
        },
    }
    let mut provenance = "prov:corroboration:".to_owned();
    provenance.append(cell_id);
    match new_id(provenance.as_str()) {
        Ok(_) => {},
        Err(e) => {
            return Err(e);
        },
    }
    let ghost seen = relation_views(treesitter_relations@);
    let ghost said = relation_views(llm_relations@);
    let mut label = "ts:".to_owned();
    label.append(cell_id);
    let left = SubjectRecord {
        cell_id: cell_id.to_owned(),
        role: "tree-sitter".to_owned(),
        label,
        modality: "observed".to_owned(),
        relations: treesitter_relations,
    };
    assert(left@ =~= observed(cell_id@, seen));
    let mut label = "llm:".to_owned();
    label.append(cell_id);
    let right = SubjectRecord {
        cell_id: cell_id.to_owned(),
        role: "llm-behavior".to_owned(),
        label,
        modality: "inferred".to_owned(),
        relations: llm_relations,
    };
    assert(right@ =~= inferred(cell_id@, said));
    proof {
        reveal_strlit("tree-sitter");
        reveal_strlit("observed");
        reveal_strlit("llm-behavior");
        reveal_strlit("inferred");
        reveal_strlit("ts:");
        reveal_strlit("llm:");
        lemma_not_blank("tree-sitter"@, 0);
        lemma_not_blank("observed"@, 0);
        lemma_not_blank("llm-behavior"@, 0);
        lemma_not_blank("inferred"@, 0);
        lemma_not_blank("ts:"@ + cell_id@, 0);
        lemma_not_blank("llm:"@ + cell_id@, 0);
    }
    let (left, right) = match (make_subject(&left), make_subject(&right)) {
        (Ok(a), Ok(b)) => (a, b),
        (Err(e), _) => {
            return Err(message_of(&e));
        },
        (_, Err(e)) => {
            return Err(message_of(&e));
        },
    };
    let found = match derive_candidates(context.as_str(), provenance.as_str(), left, right) {
        Ok(v) => v,
        Err(e) => {
            return Err(message_of(&e));
        },
    };
    let mut candidates: Vec<CandidateFacts> = Vec::new();
    let mut i: usize = 0;
    while i < found.len()
        invariant
            i <= found@.len(),
            candidates@ == found@.take(i as int).map_values(|c: CorrespondenceCell| facts(c)),
        decreases found.len() - i,
    {
        let counts = count_witnesses(&found[i]);
        candidates.push(CandidateFacts { overlaps: counts.0, differences: counts.1, gluing: glue(&found[i]) });
        i = i + 1;
        assert(candidates@ =~= found@.take(i as int).map_values(|c: CorrespondenceCell| facts(c)));
    }
    assert(found@.take(i as int) =~= found@);
    proof {
        reveal_with_fuel(overlap_total, 2);
        reveal_with_fuel(difference_total, 2);
    }
    Ok(summarize(cell_id, &candidates))
}

/// The name of a cell, or the cell itself where it has none.
pub open spec fn shown_name(space: SpaceView, cell_id: Seq<char>) -> Seq<char> {
    match name_of(space.index, cell_id) {
        Some(name) => name,
        None => cell_id,
    }
}

/// The relations of a cell among the first incidences.
pub open spec fn relations_of(space: SpaceView, cell_id: Seq<char>, links: Seq<LinkView>) -> Seq<TypedRelationView>
    decreases links.len(),
{
    if links.len() == 0 {
        Seq::empty()
    } else {
        let before = relations_of(space, cell_id, links.drop_last());
        let l = links.last();
        let outgoing = if l.from == cell_id {
            before.push(
                TypedRelationView { subject: cell_id, relation: l.relation, object: shown_name(space, l.to) },
            )
        } else {
            before
        };
        if l.to == cell_id {
            outgoing.push(
                TypedRelationView { subject: shown_name(space, l.from), relation: l.relation, object: cell_id },
            )
        } else {
            outgoing
        }
    }
}

fn show_name(space_data: &SpaceData, cell_id: &str) -> (r: String)
    ensures
        r@ == shown_name(space_data@, cell_id@),
{
    match fqn_of_cell(&space_data.fqn_to_cell_id, cell_id) {
        Some(name) => name.clone(),
        None => cell_id.to_owned(),
    }
}

/// The relations of a cell, by the names of the cells at their other ends.
pub fn build_typed_relations_from_incidences(space_data: &SpaceData, cell_id: &str) -> (r: Vec<TypedRelation>)
    ensures
        relation_views(r@) == relations_of(space_data@, cell_id@, space_data@.links),
{
    let ghost space = space_data@;
    let ghost all = space.links;
    let mut r: Vec<TypedRelation> = Vec::new();
    let mut i: usize = 0;
    assert(relation_views(r@) =~= relations_of(space, cell_id@, all.take(0)));
    while i < space_data.incidences.len()
        invariant
            i <= space_data.incidences@.len(),
            space == space_data@,
            all == space.links,
            relation_views(r@) == relations_of(space, cell_id@, all.take(i as int)),
        decreases space_data.incidences.len() - i,
    {
        let l = &space_data.incidences[i];
        assert(all[i as int] == l@);
        assert(all.take(i + 1).drop_last() =~= all.take(i as int));
        let ghost before = relation_views(r@);
        if same(l.from_cell_id.as_str(), cell_id) {
            let item = TypedRelation {
                subject: cell_id.to_owned(),
                relation: l.relation_type.clone(),
                object: show_name(space_data, l.to_cell_id.as_str()),
            };
            let ghost iv = item@;
            r.push(item);
            assert(relation_views(r@) =~= before.push(iv));
        }
        let ghost middle = relation_views(r@);
        if same(l.to_cell_id.as_str(), cell_id) {
            let item = TypedRelation {
                subject: show_name(space_data, l.from_cell_id.as_str()),
                relation: l.relation_type.clone(),
                object: cell_id.to_owned(),
            };
            let ghost iv = item@;
            r.push(item);
            assert(relation_views(r@) =~= middle.push(iv));
        }
        i = i + 1;
    }
    assert(all.take(i as int) =~= all);
    r
}

} // verus!
