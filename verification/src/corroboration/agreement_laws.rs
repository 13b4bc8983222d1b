//! When derivations agree.

use vstd::prelude::*;

use crate::corroboration::completion::{obstruction_of, Gravity, Origin};
use crate::corroboration::confidence::{evidence_if, EvidenceItemView, LlmAnnotationView};
use crate::corroboration::correspondence::{
    agreement, correspondence_summary, difference_total, overlap_total, relations_of, shown_name, CandidateFacts,
    CorrespondenceAgreement, GluingOutcome, TypedRelationView,
};
use crate::corroboration::engine::{absorbed, planned, ReplyView, StatsView};
use crate::json::{parsed_json, text_at, texts_at};
use crate::lines::trimmed;
use crate::llm::behavior_question;
use crate::model::entity::{entity_type_name, JavaEntityType};
use crate::model::graph::LinkView;
use crate::model::relation::relation_text;
use crate::model::space_data::{EntityView, SpaceView};
use crate::query::resolve::name_of;
use crate::seqs::{lemma_plus_contains, lemma_push_contains};
use crate::text::decimal_text;
use crate::text_laws::{holds, lemma_holds_inside, lemma_holds_self};
use crate::text_map::{lemma_other_key, lemma_with_entry, lookup};

verus! {

proof fn lemma_totals(a: Seq<CandidateFacts>, b: Seq<CandidateFacts>)
    ensures
        overlap_total(a + b) == overlap_total(a) + overlap_total(b),
        difference_total(a + b) == difference_total(a) + difference_total(b),
    decreases b.len(),
{
    if b.len() == 0 {
        assert(a + b =~= a);
    } else {
        lemma_totals(a, b.drop_last());
        assert((a + b).drop_last() =~= a + b.drop_last());
        assert((a + b).last() == b.last());
    }
}

proof fn lemma_no_difference(v: Seq<CandidateFacts>)
    ensures
        difference_total(v) == 0 <==> forall|i: int| 0 <= i < v.len() ==> (#[trigger] v[i]).differences == 0,
    decreases v.len(),
{
    if v.len() > 0 {
        let front = v.drop_last();
        lemma_no_difference(front);
        assert forall|i: int| 0 <= i < front.len() implies #[trigger] v[i] == front[i] by {}
        assert(v[v.len() - 1] == v.last());
        if forall|i: int| 0 <= i < v.len() ==> (#[trigger] v[i]).differences == 0 {
            assert forall|i: int| 0 <= i < front.len() implies (#[trigger] front[i]).differences == 0 by {
                assert(v[i].differences == 0);
            }
        }
    }
}

/// The agreement of the candidates of a cell: there is none without
/// candidates; they conflict where one cannot be glued, agree where one can
/// and nothing differs, and agree in part otherwise.
pub proof fn law_agreement(cell_id: Seq<char>, v: Seq<CandidateFacts>)
    ensures
        ({
            let r = correspondence_summary(cell_id, v);
            let fails = exists|i: int| 0 <= i < v.len() && (#[trigger] v[i]).gluing == Some(GluingOutcome::Failure);
            let succeeds = exists|i: int| 0 <= i < v.len() && (#[trigger] v[i]).gluing == Some(GluingOutcome::Success);
            let differs = exists|i: int| 0 <= i < v.len() && (#[trigger] v[i]).differences > 0;
            &&& r.cell_id == cell_id
            &&& r.agreement == CorrespondenceAgreement::NoCorrespondence <==> v.len() == 0
            &&& r.agreement == CorrespondenceAgreement::Conflicting <==> fails
            &&& r.agreement == CorrespondenceAgreement::Agreeing <==> !fails && succeeds && !differs
            &&& r.agreement == CorrespondenceAgreement::PartialAgreement <==> v.len() > 0 && !fails && (!succeeds
                || differs)
        }),
{
    lemma_no_difference(v);
    if exists|i: int| 0 <= i < v.len() && (#[trigger] v[i]).differences > 0 {
        let i = choose|i: int| 0 <= i < v.len() && (#[trigger] v[i]).differences > 0;
        assert(v[i].differences != 0);
    }
}

/// The witnesses that overlap and those that differ are added up over all
/// candidates.
pub proof fn law_witnesses_add_up(cell_id: Seq<char>, a: Seq<CandidateFacts>, b: Seq<CandidateFacts>, c: CandidateFacts)
    ensures
        correspondence_summary(cell_id, a + b).overlap_count == correspondence_summary(cell_id, a).overlap_count
            + correspondence_summary(cell_id, b).overlap_count,
        correspondence_summary(cell_id, a + b).difference_count == correspondence_summary(cell_id, a).difference_count
            + correspondence_summary(cell_id, b).difference_count,
        correspondence_summary(cell_id, seq![c]).overlap_count == c.overlaps,
        correspondence_summary(cell_id, seq![c]).difference_count == c.differences,
{
    lemma_totals(a, b);
    reveal_with_fuel(overlap_total, 2);
    reveal_with_fuel(difference_total, 2);
    assert(seq![c].drop_last() =~= Seq::empty());
}

/// What an answer of the model is evidence of: each part that it gives, with
/// how likely it is when the claim holds and when it does not, in hundredths.
pub proof fn law_evidence(a: LlmAnnotationView, cell_id: Seq<char>, e: EvidenceItemView)
    ensures
        a.evidence(cell_id).contains(e) <==> {
            ||| a.has_witnesses && e.id == cell_id + ":witness"@ && e.given_claim == 85 && e.given_not_claim == 25
                && e.summary == "LLM provided witness line citations"@
            ||| a.intent.len() > 0 && e.id == cell_id + ":intent"@ && e.given_claim == 70 && e.given_not_claim == 40
                && e.summary == "LLM provided intent description"@
            ||| a.preconditions.len() > 0 && e.id == cell_id + ":precond"@ && e.given_claim == 75 && e.given_not_claim
                == 35 && e.summary == "LLM identified preconditions"@
            ||| a.side_effects.len() > 0 && e.id == cell_id + ":sideeffects"@ && e.given_claim == 75
                && e.given_not_claim == 35 && e.summary == "LLM identified side effects"@
        },
{
    let w = evidence_if(
        a.has_witnesses,
        cell_id + ":witness"@,
        "LLM provided witness line citations"@,
        85,
        25,
    );
    let i = evidence_if(a.intent.len() > 0, cell_id + ":intent"@, "LLM provided intent description"@, 70, 40);
    let p = evidence_if(a.preconditions.len() > 0, cell_id + ":precond"@, "LLM identified preconditions"@, 75, 35);
    let s = evidence_if(a.side_effects.len() > 0, cell_id + ":sideeffects"@, "LLM identified side effects"@, 75, 35);
    lemma_plus_contains(w, i);
    lemma_plus_contains(w + i, p);
    lemma_plus_contains(w + i + p, s);
    lemma_one(w);
    lemma_one(i);
    lemma_one(p);
    lemma_one(s);
    assert(a.evidence(cell_id) == w + i + p + s);
}

proof fn lemma_one(v: Seq<EvidenceItemView>)
    requires
        v.len() <= 1,
    ensures
        forall|e: EvidenceItemView| #[trigger] v.contains(e) <==> v.len() == 1 && v[0] == e,
{
    assert forall|e: EvidenceItemView| #[trigger] v.contains(e) <==> v.len() == 1 && v[0] == e by {
        if v.len() == 1 && v[0] == e {
            assert(v.contains(v[0]));
        }
    }
}

/// An answer of the model that can be read becomes the annotation of its cell;
/// one that cannot, or a question that failed, is noted as an obstruction. The
/// annotations of other cells stay.
pub proof fn law_reply_absorbed(space: SpaceView, stats: StatsView, cell_id: Seq<char>, text: Seq<char>, other: Seq<char>)
    requires
        other != cell_id,
    ensures
        ({
            let (s, t) = absorbed(space, stats, ReplyView::Answer { cell_id, content: text });
            match parsed_json(text) {
                Some(v) => {
                    &&& s.obstructions == space.obstructions
                    &&& t.corroborated == stats.corroborated + 1
                    &&& lookup(s.annotations, other) == lookup(space.annotations, other)
                    &&& lookup(s.annotations, cell_id) matches Some(a) && {
                        &&& a.preconditions == texts_at(v, "preconditions"@)
                        &&& a.postconditions == texts_at(v, "postconditions"@)
                        &&& a.side_effects == texts_at(v, "side_effects"@)
                        &&& a.invariants.len() == 0
                        &&& text_at(v, "intent"@).len() > 0 ==> a.intent == Some(text_at(v, "intent"@))
                        &&& text_at(v, "intent"@).len() == 0 ==> a.intent is None
                        &&& text_at(v, "behavior"@).len() > 0 ==> a.behavior == Some(text_at(v, "behavior"@))
                        &&& text_at(v, "behavior"@).len() == 0 ==> a.behavior is None
                        &&& text_at(v, "error_behavior"@).len() > 0 ==> a.error_behavior == Some(
                            text_at(v, "error_behavior"@),
                        )
                        &&& text_at(v, "error_behavior"@).len() == 0 ==> a.error_behavior is None
                    }
                },
                None => {
                    &&& s.annotations == space.annotations
                    &&& s.obstructions == space.obstructions.push("LLM response parse failure for "@ + cell_id)
                    &&& t.parse_failures == stats.parse_failures + 1
                },
            }
        }),
        ({
            let (s, t) = absorbed(space, stats, ReplyView::Failure { cell_id, reason: text });
            &&& s.annotations == space.annotations
            &&& s.obstructions == space.obstructions.push("LLM error for "@ + cell_id + ": "@ + text)
            &&& t.llm_errors == stats.llm_errors + 1
        }),
        absorbed(space, stats, ReplyView::Lost).0 == space,
        absorbed(space, stats, ReplyView::Lost).1.llm_errors == stats.llm_errors + 1,
{
    if let Some(v) = parsed_json(text) {
        let a = LlmAnnotationView::of(v).annotation();
        lemma_with_entry(space.annotations, cell_id, a);
        lemma_other_key(space.annotations, cell_id, a, other);
    }
}

/// An entity that the model can be asked about and whose text is there.
pub open spec fn is_question(sources: Seq<(Seq<char>, Seq<char>)>, e: EntityView) -> bool {
    &&& e.entity_type == JavaEntityType::Method || e.entity_type == JavaEntityType::Constructor || e.entity_type
        == JavaEntityType::Class || e.entity_type == JavaEntityType::Interface
    &&& lookup(sources, e.witness.file) matches Some(text) && text.len() > 0
}

/// The model is asked about every method, constructor, class and interface
/// whose text is there, and the question holds the text and the label.
pub proof fn law_questions(sources: Seq<(Seq<char>, Seq<char>)>, entities: Seq<EntityView>, i: int)
    ensures
        ({
            let own = entities.filter(|e: EntityView| is_question(sources, e));
            let tasks = planned(sources, entities).0;
            &&& tasks.len() == own.len()
            &&& 0 <= i < own.len() ==> {
                &&& tasks[i].cell_id == own[i].cell_id
                &&& tasks[i].request.messages.len() == 1
                &&& holds(tasks[i].request.messages[0].content, lookup(sources, own[i].witness.file)->0)
                &&& holds(tasks[i].request.messages[0].content, own[i].label)
            }
        }),
    decreases entities.len(),
{
    reveal(Seq::filter);
    if entities.len() > 0 {
        law_questions(sources, entities.drop_last(), i);
        let e = entities.last();
        if is_question(sources, e) {
            lemma_question(e.label, entity_type_name(e.entity_type), lookup(sources, e.witness.file)->0);
        }
    }
}

proof fn lemma_question(label: Seq<char>, kind: Seq<char>, code: Seq<char>)
    ensures
        holds(behavior_question(label, kind, code, Seq::empty()), code),
        holds(behavior_question(label, kind, code, Seq::empty()), label),
{
    let start = "Analyze this Java "@ + kind + " `"@;
    let named = start + label;
    let opened = named + "`:\n\n```java\n"@;
    let told = opened + code;
    let closed = told + "\n```"@;
    let none = Seq::<char>::empty();
    lemma_holds_self(label);
    lemma_behind(start, label, label);
    lemma_before(named, "`:\n\n```java\n"@, label);
    lemma_before(opened, code, label);
    lemma_before(told, "\n```"@, label);
    lemma_before(closed, none, label);
    lemma_holds_self(code);
    lemma_behind(opened, code, code);
    lemma_before(told, "\n```"@, code);
    lemma_before(closed, none, code);
    assert(behavior_question(label, kind, code, Seq::empty()) == closed + none);
}

proof fn lemma_before(a: Seq<char>, b: Seq<char>, part: Seq<char>)
    requires
        holds(a, part),
    ensures
        holds(a + b, part),
{
    let none = Seq::<char>::empty();
    lemma_holds_inside(none, a, b, part);
    assert(none + a + b =~= a + b);
}

proof fn lemma_behind(a: Seq<char>, b: Seq<char>, part: Seq<char>)
    requires
        holds(b, part),
    ensures
        holds(a + b, part),
{
    let none = Seq::<char>::empty();
    lemma_holds_inside(a, b, none, part);
    assert(a + b + none =~= a + b);
}

/// The relation is one that is seen at the cell: one that the cell starts, or
/// one that ends there.
pub open spec fn is_seen(space: SpaceView, cell_id: Seq<char>, l: LinkView, r: TypedRelationView) -> bool {
    &&& r.relation == l.relation
    &&& {
        ||| l.from == cell_id && r.subject == cell_id && match name_of(space.index, l.to) {
            Some(name) => r.object == name,
            None => r.object == l.to,
        }
        ||| l.to == cell_id && r.object == cell_id && match name_of(space.index, l.from) {
            Some(name) => r.subject == name,
            None => r.subject == l.from,
        }
    }
}

/// What is seen at a cell are the relations that it starts and those that end
/// there, with the other end by its name.
pub proof fn law_relations_seen(
    space: SpaceView,
    cell_id: Seq<char>,
    links: Seq<LinkView>,
    r: TypedRelationView,
)
    ensures
        relations_of(space, cell_id, links).contains(r) <==> exists|i: int|
            0 <= i < links.len() && is_seen(space, cell_id, #[trigger] links[i], r),
    decreases links.len(),
{
    if links.len() > 0 {
        let front = links.drop_last();
        let l = links.last();
        law_relations_seen(space, cell_id, front, r);
        let before = relations_of(space, cell_id, front);
        let out = TypedRelationView { subject: cell_id, relation: l.relation, object: shown_name(space, l.to) };
        let back = TypedRelationView { subject: shown_name(space, l.from), relation: l.relation, object: cell_id };
        lemma_push_contains(before, out);
        lemma_push_contains(before, back);
        lemma_push_contains(before.push(out), back);
        assert forall|i: int| 0 <= i < front.len() implies #[trigger] links[i] == front[i] by {}
        assert(links[links.len() - 1] == l);
        if before.contains(r) {
            let i = choose|i: int| 0 <= i < front.len() && is_seen(space, cell_id, #[trigger] front[i], r);
            assert(is_seen(space, cell_id, links[i], r));
        }
        if is_seen(space, cell_id, l, r) {
            assert(r == out || r == back);
        }
    }
}

/// What is missing where a name is unknown: the relation from the known cell to
/// what was written, with where it stands; it is of low severity and half sure.
pub proof fn law_obstruction(space: SpaceView, k: int)
    ensures
        ({
            let u = space.unresolved[k];
            let o = obstruction_of(space, k);
            &&& o.space == trimmed(space.id)
            &&& o.missing_morphism
            &&& o.gravity == Gravity::Low
            &&& o.confidence.bits == 0x3fe0_0000_0000_0000
            &&& o.source.0 == Origin::Code
            &&& o.source.1 == trimmed(u.file + "#L"@ + decimal_text(u.line as nat))
            &&& o.source.2 == trimmed(u.file)
            &&& o.missing.id == trimmed("obstruction:unresolved:"@ + decimal_text(k as nat))
            &&& o.missing.summary == trimmed(
                "unresolved "@ + relation_text(u.relation_type) + ": "@ + u.from_fqn + " -> "@ + u.target_text,
            )
            &&& o.missing.resolution == trimmed("resolve reference to "@ + u.target_text)
            &&& lookup(space.index, u.from_fqn) matches Some(c) ==> o.missing.cell == Some(trimmed(c))
            &&& lookup(space.index, u.from_fqn) is None ==> o.missing.cell is None
        }),
{
}

} // verus!
