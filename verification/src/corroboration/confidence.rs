//! What a language model says of an entity, and how far to believe it.

use higher_graphen_core::{Confidence as Score, CoreError, Id};
use higher_graphen_evidence::confidence::{
    update_confidence, ConfidenceEvidence, ConfidenceUpdateInput, EvidenceLikelihood,
};
use serde_json::Value;
use vstd::prelude::*;

use crate::json::{as_items, field, json, list_texts, parsed_json, plain_text, read_json, text_at, texts_at, JsonView};
use crate::lines::{opt_text, trimmed, trimmed_end};
use crate::model::graph::{Confidence, HALF_BITS};
use crate::model::ids::new_id;
use crate::model::semantic::{AnnotationView, SemanticAnnotation};
use crate::model::store::{lemma_tight, valid_id};
use crate::text::{copy_texts, is_space, lemma_spans, skip_space, texts};

verus! {

/// What a language model says of an entity.
#[derive(Debug)]
pub struct LlmAnnotation {
    pub intent: String,
    pub behavior: String,
    pub preconditions: Vec<String>,
    pub postconditions: Vec<String>,
    pub side_effects: Vec<String>,
    pub error_behavior: String,
    pub has_witnesses: bool,
}

#[verifier::ext_equal]
pub struct LlmAnnotationView {
    pub intent: Seq<char>,
    pub behavior: Seq<char>,
    pub preconditions: Seq<Seq<char>>,
    pub postconditions: Seq<Seq<char>>,
    pub side_effects: Seq<Seq<char>>,
    pub error_behavior: Seq<char>,
    pub has_witnesses: bool,
}

impl View for LlmAnnotation {
    type V = LlmAnnotationView;

    open spec fn view(&self) -> LlmAnnotationView {
        LlmAnnotationView {
            intent: self.intent@,
            behavior: self.behavior@,
            preconditions: texts(self.preconditions@),
            postconditions: texts(self.postconditions@),
            side_effects: texts(self.side_effects@),
            error_behavior: self.error_behavior@,
            has_witnesses: self.has_witnesses,
        }
    }
}

/// What the structure of the code shows of an entity.
#[derive(Debug)]
pub struct DeterministicFacts {
    pub entity_type: String,
    pub label: String,
    pub has_provenance: bool,
    pub caller_count: usize,
    pub callee_count: usize,
}

#[verifier::ext_equal]
pub struct DeterministicFactsView {
    pub entity_type: Seq<char>,
    pub label: Seq<char>,
    pub has_provenance: bool,
    pub caller_count: usize,
    pub callee_count: usize,
}

impl View for DeterministicFacts {
    type V = DeterministicFactsView;

    open spec fn view(&self) -> DeterministicFactsView {
        DeterministicFactsView {
            entity_type: self.entity_type@,
            label: self.label@,
            has_provenance: self.has_provenance,
            caller_count: self.caller_count,
            callee_count: self.callee_count,
        }
    }
}

/// A piece of evidence for a claim, and how likely it is with the claim and
/// without it, in hundredths.
#[derive(Debug)]
pub struct EvidenceItem {
    pub id: String,
    pub summary: String,
    pub given_claim: u8,
    pub given_not_claim: u8,
}

#[verifier::ext_equal]
pub struct EvidenceItemView {
    pub id: Seq<char>,
    pub summary: Seq<char>,
    pub given_claim: u8,
    pub given_not_claim: u8,
}

impl View for EvidenceItem {
    type V = EvidenceItemView;

    open spec fn view(&self) -> EvidenceItemView {
        EvidenceItemView {
            id: self.id@,
            summary: self.summary@,
            given_claim: self.given_claim,
            given_not_claim: self.given_not_claim,
        }
    }
}

/// How far the evidence bears an annotation out.
pub struct CorroborationOutcome {
    pub posterior: Confidence,
    pub annotation: SemanticAnnotation,
    pub discrepancies: Vec<String>,
}

/// The bits of `1.0`.
pub const ONE_BITS: u64 = 0x3ff0_0000_0000_0000;

/// Hundredths strictly between zero and one.
pub open spec fn is_open(hundredths: u8) -> bool {
    0 < hundredths < 100
}

pub open spec fn evidence_views(v: Seq<EvidenceItem>) -> Seq<EvidenceItemView> {
    v.map_values(|e: EvidenceItem| e@)
}

/// Evidence that supports a claim and can be told from the rest.
pub open spec fn is_supporting(v: Seq<EvidenceItemView>) -> bool {
    &&& forall|i: int|
        0 <= i < v.len() ==> {
            let e = #[trigger] v[i];
            valid_id(e.id) && trimmed(e.summary).len() > 0 && is_open(e.given_claim) && is_open(e.given_not_claim)
                && e.given_not_claim < e.given_claim
        }
    &&& forall|i: int, j: int|
        0 <= i < j < v.len() ==> trimmed((#[trigger] v[i]).id) != trimmed((#[trigger] v[j]).id)
}

/// A score that a prior, in hundredths, comes to by evidence that supports the
/// claim. It is computed with logarithms, so that machines can differ in its
/// last digits: for the same evidence there may be several.
pub uninterp spec fn weighs_to(prior: u8, supporting: Seq<EvidenceItemView>, score: Confidence) -> bool;

/// `update_confidence`: how far a claim is to be believed after evidence that
/// supports it. It succeeds for a prior and likelihoods strictly between zero
/// and one and for evidence that makes the claim likelier under distinct
/// identifiers, and gives a score between zero and one that the prior comes to
/// by the evidence. The claim's own identifier does not count.
#[verifier::external_body]
fn weigh(claim: &str, prior: u8, supporting: &Vec<EvidenceItem>) -> (r: Result<Confidence, CoreError>)
    requires
        valid_id(claim@),
        is_open(prior),
        is_supporting(evidence_views(supporting@)),
    ensures
        r.is_ok(),
        r matches Ok(c) ==> weighs_to(prior, evidence_views(supporting@), c),
        r matches Ok(c) ==> c.bits <= ONE_BITS,
{
    let score = |hundredths: u8| Score::new(format!("0.{hundredths:02}").parse().unwrap());
    let item = |e: &EvidenceItem| {
        let likelihood = EvidenceLikelihood::new(score(e.given_claim)?, score(e.given_not_claim)?)?;
        ConfidenceEvidence::new(Id::new(e.id.as_str())?, e.summary.as_str(), likelihood)
    };
    let items = supporting.iter().map(item).collect::<Result<Vec<_>, CoreError>>()?;
    let input = ConfidenceUpdateInput::new(Id::new(claim)?, score(prior)?).with_supporting_evidence(items);
    let record = update_confidence(input)?;
    Ok(Confidence { bits: record.posterior.value().to_bits() })
}

impl LlmAnnotationView {
    /// What a reply holds.
    pub open spec fn of(v: JsonView) -> Self {
        LlmAnnotationView {
            intent: text_at(v, "intent"@),
            behavior: text_at(v, "behavior"@),
            preconditions: texts_at(v, "preconditions"@),
            postconditions: texts_at(v, "postconditions"@),
            side_effects: texts_at(v, "side_effects"@),
            error_behavior: text_at(v, "error_behavior"@),
            has_witnesses: match v.field("witnesses"@).items() {
                Some(l) => l.len() > 0,
                None => false,
            },
        }
    }

    /// The annotation for the space; what is empty is not known.
    pub open spec fn annotation(self) -> AnnotationView {
        AnnotationView {
            intent: unless_empty(self.intent),
            behavior: unless_empty(self.behavior),
            preconditions: self.preconditions,
            postconditions: self.postconditions,
            invariants: Seq::empty(),
            side_effects: self.side_effects,
            error_behavior: unless_empty(self.error_behavior),
        }
    }

    /// The evidence that the reply gives for what it claims of a cell.
    pub open spec fn evidence(self, cell_id: Seq<char>) -> Seq<EvidenceItemView> {
        evidence_if(
            self.has_witnesses,
            cell_id + ":witness"@,
            "LLM provided witness line citations"@,
            85,
            25,
        ) + evidence_if(
            self.intent.len() > 0,
            cell_id + ":intent"@,
            "LLM provided intent description"@,
            70,
            40,
        ) + evidence_if(
            self.preconditions.len() > 0,
            cell_id + ":precond"@,
            "LLM identified preconditions"@,
            75,
            35,
        ) + evidence_if(
            self.side_effects.len() > 0,
            cell_id + ":sideeffects"@,
            "LLM identified side effects"@,
            75,
            35,
        )
    }

    /// What speaks against the reply.
    pub open spec fn discrepancies(self) -> Seq<Seq<char>> {
        if self.has_witnesses {
            Seq::empty()
        } else {
            seq!["LLM annotation lacks witness citations"@]
        }
    }
}

pub open spec fn unless_empty(s: Seq<char>) -> Option<Seq<char>> {
    if s.len() > 0 {
        Some(s)
    } else {
        None
    }
}

pub open spec fn evidence_if(
    given: bool,
    id: Seq<char>,
    summary: Seq<char>,
    claim: u8,
    not_claim: u8,
) -> Seq<EvidenceItemView> {
    if given {
        seq![
            EvidenceItemView {
                id,
                summary,
                given_claim: claim,
                given_not_claim: not_claim,
            },
        ]
    } else {
        Seq::empty()
    }
}

impl LlmAnnotation {
    /// Reads a reply.
    pub fn from_value(v: &Value) -> (r: Self)
        ensures
            r@ == LlmAnnotationView::of(json(*v)),
    {
        let has_witnesses: bool = match as_items(field(v, "witnesses")) {
            Some(l) => l.len() > 0,
            None => false,
        };
        LlmAnnotation {
            intent: plain_text(v, "intent"),
            behavior: plain_text(v, "behavior"),
            preconditions: list_texts(v, "preconditions"),
            postconditions: list_texts(v, "postconditions"),
            side_effects: list_texts(v, "side_effects"),
            error_behavior: plain_text(v, "error_behavior"),
            has_witnesses,
        }
    }

    /// Reads the text of a reply; there is nothing where it is no JSON.
    pub fn from_json(json_str: &str) -> (r: Option<Self>)
        ensures
            match parsed_json(json_str@) {
                Some(v) => r matches Some(a) && a@ == LlmAnnotationView::of(v),
                None => r is None,
            },
    {
        match read_json(json_str) {
            Some(v) => Some(LlmAnnotation::from_value(&v)),
            None => None,
        }
    }
}

fn text_unless_empty(s: &String) -> (r: Option<String>)
    ensures
        opt_text(r) == unless_empty(s@),
{
    if s.as_str().unicode_len() > 0 {
        Some(s.clone())
    } else {
        None
    }
}

fn item_of(cell_id: &str, ending: &str, summary: &str, given_claim: u8, given_not_claim: u8) -> (r: EvidenceItem)
    ensures
        r@ == (EvidenceItemView { id: cell_id@ + ending@, summary: summary@, given_claim, given_not_claim }),
{
    let mut id = cell_id.to_owned();
    id.append(ending);
    EvidenceItem { id, summary: summary.to_owned(), given_claim, given_not_claim }
}

/// Collects the evidence that a reply gives.
pub fn supporting_evidence(llm_annotation: &LlmAnnotation, cell_id: &str) -> (r: Vec<EvidenceItem>)
    ensures
        evidence_views(r@) == llm_annotation@.evidence(cell_id@),
{
    let mut r: Vec<EvidenceItem> = Vec::new();
    let ghost a = llm_annotation@;
    assert(a.preconditions.len() == llm_annotation.preconditions@.len());
    assert(a.side_effects.len() == llm_annotation.side_effects@.len());
    let ghost e1 = evidence_if(
        a.has_witnesses,
        cell_id@ + ":witness"@,
        "LLM provided witness line citations"@,
        85,
        25,
    );
    let ghost e2 = evidence_if(a.intent.len() > 0, cell_id@ + ":intent"@, "LLM provided intent description"@, 70, 40);
    let ghost e3 = evidence_if(
        a.preconditions.len() > 0,
        cell_id@ + ":precond"@,
        "LLM identified preconditions"@,
        75,
        35,
    );
    if llm_annotation.has_witnesses {
        r.push(item_of(cell_id, ":witness", "LLM provided witness line citations", 85, 25));
    }
    assert(evidence_views(r@) =~= e1);
    if llm_annotation.intent.as_str().unicode_len() > 0 {
        r.push(item_of(cell_id, ":intent", "LLM provided intent description", 70, 40));
    }
    assert(evidence_views(r@) =~= e1 + e2);
    if llm_annotation.preconditions.len() > 0 {
        r.push(item_of(cell_id, ":precond", "LLM identified preconditions", 75, 35));
    }
    assert(evidence_views(r@) =~= e1 + e2 + e3);
    if llm_annotation.side_effects.len() > 0 {
        r.push(item_of(cell_id, ":sideeffects", "LLM identified side effects", 75, 35));
    }
    assert(evidence_views(r@) =~= a.evidence(cell_id@));
    r
}

proof fn lemma_skip_stops(x: Seq<char>, e: Seq<char>, i: int)
    requires
        0 <= i <= x.len(),
        e.len() > 0,
        !is_space(e[0]),
    ensures
        skip_space(x + e, i) == skip_space(x, i),
        skip_space(x, i) <= x.len(),
    decreases x.len() - i,
{
    assert((x + e).len() == x.len() + e.len());
    if i < x.len() {
        assert((x + e)[i] == x[i]);
        if is_space(x[i]) {
            lemma_skip_stops(x, e, i + 1);
        }
    } else {
        assert((x + e)[i] == e[0]);
    }
}

/// Trimming keeps an ending without white space at its ends.
proof fn lemma_ending_stays(x: Seq<char>, e: Seq<char>)
    requires
        e.len() > 0,
        !is_space(e[0]),
        !is_space(e.last()),
    ensures
        trimmed(x + e) == x.skip(skip_space(x, 0)) + e,
        skip_space(x, 0) <= x.len(),
{
    assert((x + e).last() == e.last());
    assert(trimmed_end(x + e) =~= x + e);
    lemma_skip_stops(x, e, 0);
    lemma_spans(x, 0);
    assert(trimmed(x + e) =~= x.skip(skip_space(x, 0)) + e);
}

/// The identifiers of a reply's evidence are identifiers.
pub open spec fn names_evidence(a: LlmAnnotationView, cell_id: Seq<char>) -> bool {
    forall|i: int| 0 <= i < a.evidence(cell_id).len() ==> valid_id((#[trigger] a.evidence(cell_id)[i]).id)
}

/// What a reply says supports what it claims.
pub proof fn law_evidence_supports(a: LlmAnnotationView, cell_id: Seq<char>)
    requires
        names_evidence(a, cell_id),
    ensures
        is_supporting(a.evidence(cell_id)),
{
    reveal_strlit(":witness");
    reveal_strlit(":intent");
    reveal_strlit(":precond");
    reveal_strlit(":sideeffects");
    reveal_strlit("LLM provided witness line citations");
    reveal_strlit("LLM provided intent description");
    reveal_strlit("LLM identified preconditions");
    reveal_strlit("LLM identified side effects");
    lemma_ending_stays(cell_id, ":witness"@);
    lemma_ending_stays(cell_id, ":intent"@);
    lemma_ending_stays(cell_id, ":precond"@);
    lemma_ending_stays(cell_id, ":sideeffects"@);
    lemma_tight("LLM provided witness line citations"@);
    lemma_tight("LLM provided intent description"@);
    lemma_tight("LLM identified preconditions"@);
    lemma_tight("LLM identified side effects"@);
    let w = trimmed(cell_id + ":witness"@);
    let p = trimmed(cell_id + ":precond"@);
    assert(w.last() == 's');
    assert(p.last() == 'd');
    assert(w != p);
}

pub fn compute_corroboration(
    _deterministic_facts: &DeterministicFacts,
    llm_annotation: &LlmAnnotation,
    cell_id: &str,
) -> (r: CorroborationOutcome)
    requires
        names_evidence(llm_annotation@, cell_id@),
    ensures
        weighs_to(50, llm_annotation@.evidence(cell_id@), r.posterior),
        r.posterior.bits <= ONE_BITS,
        r.annotation@ == llm_annotation@.annotation(),
        texts(r.discrepancies@) == llm_annotation@.discrepancies(),
{
    let mut discrepancies: Vec<String> = Vec::new();
    if !llm_annotation.has_witnesses {
        discrepancies.push("LLM annotation lacks witness citations".to_owned());
    }
    assert(texts(discrepancies@) =~= llm_annotation@.discrepancies());
    let claim = match new_id(cell_id) {
        Ok(_) => cell_id.to_owned(),
        Err(_) => {
            proof {
                reveal_strlit("unknown");
                lemma_tight("unknown"@);
            }
            "unknown".to_owned()
        },
    };
    let supporting = supporting_evidence(llm_annotation, cell_id);
    proof {
        law_evidence_supports(llm_annotation@, cell_id@);
    }
    let posterior = match weigh(claim.as_str(), 50, &supporting) {
        Ok(c) => c,
        Err(_) => Confidence { bits: HALF_BITS },
    };
    let annotation = SemanticAnnotation {
        intent: text_unless_empty(&llm_annotation.intent),
        behavior: text_unless_empty(&llm_annotation.behavior),
        preconditions: copy_texts(llm_annotation.preconditions.as_slice()),
        postconditions: copy_texts(llm_annotation.postconditions.as_slice()),
        invariants: Vec::new(),
        side_effects: copy_texts(llm_annotation.side_effects.as_slice()),
        error_behavior: text_unless_empty(&llm_annotation.error_behavior),
    };
    assert(annotation@.invariants =~= Seq::empty());
    CorroborationOutcome { posterior, annotation, discrepancies }
}

} // verus!
