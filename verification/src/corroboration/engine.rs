//! Asking a language model about the entities of a space.

use vstd::prelude::*;

use crate::corroboration::confidence::{
    compute_corroboration, DeterministicFacts, LlmAnnotation, LlmAnnotationView,
};
use crate::json::parsed_json;
use crate::llm::{behavior_extraction_prompt, behavior_request, LlmRequest, RequestView};
use crate::model::entity::{entity_type_name, JavaEntityType};
use crate::model::ids::new_id;
use crate::model::semantic::{AnnotationView, SemanticAnnotation};
use crate::model::space_data::{
    annotations_view, entry_of, index_view, lemma_view_entry, put_entry, EntityRecord, EntityView, SpaceData, SpaceView,
};
use crate::model::store::valid_id;
use crate::query::explain::annotated;
use crate::text::texts;
use crate::text_map::{lookup, with_entry, TextMap};

verus! {

/// How a space is corroborated. The thresholds are the bits of doubles.
#[derive(Debug, Clone)]
pub struct CorroborationConfig {
    pub high_confidence_threshold: u64,
    pub low_confidence_threshold: u64,
    pub enable_llm_pass: bool,
    pub max_concurrent_llm_calls: usize,
}

impl Default for CorroborationConfig {
    fn default() -> (r: Self)
        ensures
            r.high_confidence_threshold == 0x3fe9_9999_9999_999au64,
            r.low_confidence_threshold == 0x3fd9_9999_9999_999au64,
            r.enable_llm_pass,
            r.max_concurrent_llm_calls == 5,
    {
        CorroborationConfig {
            high_confidence_threshold: 0x3fe9_9999_9999_999a,
            low_confidence_threshold: 0x3fd9_9999_9999_999a,
            enable_llm_pass: true,
            max_concurrent_llm_calls: 5,
        }
    }
}

#[derive(Debug, Default, Clone, Copy, PartialEq, Eq, Structural)]
pub struct CorroborationStats {
    pub deterministic_only: usize,
    pub corroborated: usize,
    pub with_discrepancies: usize,
    pub parse_failures: usize,
    pub llm_errors: usize,
    pub no_source: usize,
}

/// Counts as mathematics.
#[verifier::ext_equal]
pub struct StatsView {
    pub deterministic_only: nat,
    pub corroborated: nat,
    pub with_discrepancies: nat,
    pub parse_failures: nat,
    pub llm_errors: nat,
    pub no_source: nat,
}

impl View for CorroborationStats {
    type V = StatsView;

    open spec fn view(&self) -> StatsView {
        StatsView {
            deterministic_only: self.deterministic_only as nat,
            corroborated: self.corroborated as nat,
            with_discrepancies: self.with_discrepancies as nat,
            parse_failures: self.parse_failures as nat,
            llm_errors: self.llm_errors as nat,
            no_source: self.no_source as nat,
        }
    }
}

impl StatsView {
    pub open spec fn zero() -> Self {
        StatsView {
            deterministic_only: 0,
            corroborated: 0,
            with_discrepancies: 0,
            parse_failures: 0,
            llm_errors: 0,
            no_source: 0,
        }
    }
}

/// What the model is to be asked about a cell.
#[derive(Debug, Clone)]
pub struct LlmTask {
    pub cell_id: String,
    pub request: LlmRequest,
}

#[verifier::ext_equal]
pub struct TaskView {
    pub cell_id: Seq<char>,
    pub request: RequestView,
}

impl View for LlmTask {
    type V = TaskView;

    open spec fn view(&self) -> TaskView {
        TaskView { cell_id: self.cell_id@, request: self.request@ }
    }
}

pub open spec fn task_views(v: Seq<LlmTask>) -> Seq<TaskView> {
    v.map_values(|t: LlmTask| t@)
}

/// What came back of a question.
#[derive(Debug)]
pub enum LlmReply {
    /// The model answered about a cell.
    Answer { cell_id: String, content: String },
    /// The model could not be asked about a cell.
    Failure { cell_id: String, reason: String },
    /// The question was lost.
    Lost,
}

pub enum ReplyView {
    Answer { cell_id: Seq<char>, content: Seq<char> },
    Failure { cell_id: Seq<char>, reason: Seq<char> },
    Lost,
}

impl View for LlmReply {
    type V = ReplyView;

    open spec fn view(&self) -> ReplyView {
        match self {
            LlmReply::Answer { cell_id, content } => ReplyView::Answer { cell_id: cell_id@, content: content@ },
            LlmReply::Failure { cell_id, reason } => ReplyView::Failure { cell_id: cell_id@, reason: reason@ },
            LlmReply::Lost => ReplyView::Lost,
        }
    }
}

pub open spec fn reply_views(v: Seq<LlmReply>) -> Seq<ReplyView> {
    v.map_values(|t: LlmReply| t@)
}

/// Entities that the model is asked about.
pub open spec fn is_analyzed(kind: JavaEntityType) -> bool {
    kind == JavaEntityType::Method || kind == JavaEntityType::Constructor || kind == JavaEntityType::Class || kind
        == JavaEntityType::Interface
}

/// The source of an entity; empty where it is not loaded.
pub open spec fn source_of(sources: Seq<(Seq<char>, Seq<char>)>, e: EntityView) -> Seq<char> {
    match lookup(sources, e.witness.file) {
        Some(s) => s,
        None => Seq::empty(),
    }
}

/// The questions about the first entities, and how many of these have no source.
pub open spec fn planned(sources: Seq<(Seq<char>, Seq<char>)>, entities: Seq<EntityView>) -> (Seq<TaskView>, nat)
    decreases entities.len(),
{
    if entities.len() == 0 {
        (Seq::empty(), 0)
    } else {
        let (tasks, missing) = planned(sources, entities.drop_last());
        let e = entities.last();
        if !is_analyzed(e.entity_type) {
            (tasks, missing)
        } else if source_of(sources, e).len() == 0 {
            (tasks, missing + 1)
        } else {
            (
                tasks.push(
                    TaskView {
                        cell_id: e.cell_id,
                        request: behavior_request(
                            e.label,
                            entity_type_name(e.entity_type),
                            source_of(sources, e),
                            Seq::empty(),
                        ),
                    },
                ),
                missing,
            )
        }
    }
}

/// Every entity gets an empty annotation.
pub open spec fn bare_annotations(space: SpaceView, entities: Seq<EntityView>) -> SpaceView
    decreases entities.len(),
{
    if entities.len() == 0 {
        space
    } else {
        annotated(
            bare_annotations(space, entities.drop_last()),
            entities.last().cell_id,
            AnnotationView::empty(),
        )
    }
}

pub open spec fn obstructed(space: SpaceView, text: Seq<char>) -> SpaceView {
    SpaceView { obstructions: space.obstructions.push(text), ..space }
}

/// What a reply does to a space and to the counts.
pub open spec fn absorbed(space: SpaceView, stats: StatsView, reply: ReplyView) -> (SpaceView, StatsView) {
    match reply {
        ReplyView::Answer { cell_id, content } => match parsed_json(content) {
            Some(v) => (
                annotated(space, cell_id, LlmAnnotationView::of(v).annotation()),
                StatsView {
                    corroborated: stats.corroborated + 1,
                    with_discrepancies: if LlmAnnotationView::of(v).has_witnesses {
                        stats.with_discrepancies
                    } else {
                        stats.with_discrepancies + 1
                    },
                    ..stats
                },
            ),
            None => (
                obstructed(space, "LLM response parse failure for "@ + cell_id),
                StatsView { parse_failures: stats.parse_failures + 1, ..stats },
            ),
        },
        ReplyView::Failure { cell_id, reason } => (
            obstructed(space, "LLM error for "@ + cell_id + ": "@ + reason),
            StatsView { llm_errors: stats.llm_errors + 1, ..stats },
        ),
        ReplyView::Lost => (space, StatsView { llm_errors: stats.llm_errors + 1, ..stats }),
    }
}

/// What the first replies do.
pub open spec fn all_absorbed(space: SpaceView, stats: StatsView, replies: Seq<ReplyView>) -> (SpaceView, StatsView)
    decreases replies.len(),
{
    if replies.len() == 0 {
        (space, stats)
    } else {
        let (s, t) = all_absorbed(space, stats, replies.drop_last());
        absorbed(s, t, replies.last())
    }
}

/// The evidence of any answer about a cell can be named.
pub open spec fn names_any_evidence(cell_id: Seq<char>) -> bool {
    valid_id(cell_id + ":witness"@) && valid_id(cell_id + ":intent"@) && valid_id(cell_id + ":precond"@) && valid_id(
        cell_id + ":sideeffects"@,
    )
}

pub open spec fn names_answer(reply: ReplyView) -> bool {
    match reply {
        ReplyView::Answer { cell_id, content } => names_any_evidence(cell_id),
        _ => true,
    }
}

fn can_extend(cell_id: &str, ending: &str) -> (r: bool)
    ensures
        r == valid_id(cell_id@ + ending@),
{
    let mut id = cell_id.to_owned();
    id.append(ending);
    new_id(id.as_str()).is_ok()
}

/// Whether the evidence of an answer about a cell can be named.
pub fn can_name_evidence(cell_id: &str) -> (r: bool)
    ensures
        r == names_any_evidence(cell_id@),
{
    can_extend(cell_id, ":witness") && can_extend(cell_id, ":intent") && can_extend(cell_id, ":precond") && can_extend(
        cell_id,
        ":sideeffects",
    )
}

/// Sets an annotation.
pub fn put_annotation(space_data: &mut SpaceData, cell_id: String, annotation: SemanticAnnotation)
    ensures
        final(space_data)@ == annotated(old(space_data)@, cell_id@, annotation@),
        final(space_data).stored() == old(space_data).stored(),
{
    let ghost before = space_data@;
    proof {
        let f = |v: SemanticAnnotation| v@;
        let es = space_data.annotations.entries();
        lemma_view_entry(es, f, cell_id@, annotation);
        assert(annotations_view(space_data.annotations) =~= es.map_values(
            |e: (Seq<char>, SemanticAnnotation)| (e.0, f(e.1)),
        ));
        assert(with_entry(es, cell_id@, annotation).map_values(
            |e: (Seq<char>, SemanticAnnotation)| (e.0, f(e.1)),
        ) =~= with_entry(es, cell_id@, annotation).map_values(|e: (Seq<char>, SemanticAnnotation)| (e.0, e.1@)));
    }
    space_data.annotations.insert(cell_id, annotation);
    assert(space_data@ =~= annotated(before, cell_id@, annotation@));
}

fn put_obstruction(space_data: &mut SpaceData, text: String)
    ensures
        final(space_data)@ == obstructed(old(space_data)@, text@),
        final(space_data).stored() == old(space_data).stored(),
{
    let ghost before = space_data@;
    space_data.obstructions.push(text);
    assert(space_data@.obstructions =~= before.obstructions.push(text@));
    assert(space_data@ =~= obstructed(before, text@));
}

/// Corroborates spaces with the sources at hand.
pub struct CorroborationEngine {
    pub config: CorroborationConfig,
    pub source_files: TextMap<String>,
}

impl CorroborationEngine {
    pub open spec fn sources(self) -> Seq<(Seq<char>, Seq<char>)> {
        index_view(self.source_files)
    }

    pub fn new(config: CorroborationConfig) -> (r: Self)
        ensures
            r.config == config,
            r.sources() == Seq::<(Seq<char>, Seq<char>)>::empty(),
    {
        let r = CorroborationEngine { config, source_files: TextMap::new() };
        assert(r.sources() =~= Seq::empty());
        r
    }

    /// Keeps the content of a source file.
    pub fn load_source(&mut self, file: String, content: String)
        ensures
            final(self).config == old(self).config,
            final(self).sources() == with_entry(old(self).sources(), file@, content@),
    {
        put_entry(&mut self.source_files, file, content);
    }

    /// Whether the model is to be asked at all.
    pub fn asks_model(&self, has_provider: bool) -> (r: bool)
        ensures
            r == (self.config.enable_llm_pass && has_provider),
    {
        self.config.enable_llm_pass && has_provider
    }

    fn find_source_for_entity(&self, entity: &EntityRecord) -> (r: String)
        ensures
            r@ == source_of(self.sources(), entity@),
    {
        match entry_of(&self.source_files, entity.witness.file.as_str()) {
            Some(s) => s.clone(),
            None => {
                let r = String::new();
                assert(r@ =~= Seq::empty());
                r
            },
        }
    }

    /// What the model is to be asked, in the order of the entities, and how
    /// many entities have no source.
    pub fn plan(&self, space_data: &SpaceData) -> (r: (Vec<LlmTask>, usize))
        ensures
            (task_views(r.0@), r.1 as nat) == planned(self.sources(), space_data@.entities),
    {
        let ghost all = space_data@.entities;
        let ghost sources = self.sources();
        let mut tasks: Vec<LlmTask> = Vec::new();
        let mut missing: usize = 0;
        let none: Vec<String> = Vec::new();
        assert(texts(none@) =~= Seq::empty());
        let mut i: usize = 0;
        assert(task_views(tasks@) =~= planned(sources, all.take(0)).0);
        while i < space_data.entities.len()
            invariant
                i <= space_data.entities@.len(),
                missing <= i,
                all == space_data@.entities,
                sources == self.sources(),
                texts(none@) == Seq::<Seq<char>>::empty(),
                task_views(tasks@) == planned(sources, all.take(i as int)).0,
                missing as nat == planned(sources, all.take(i as int)).1,
            decreases space_data.entities.len() - i,
        {
            let e = &space_data.entities[i];
            assert(all[i as int] == e@);
            assert(all.take(i + 1).drop_last() =~= all.take(i as int));
            let kind = e.entity_type;
            if kind == JavaEntityType::Method || kind == JavaEntityType::Constructor || kind == JavaEntityType::Class
                || kind == JavaEntityType::Interface {
                let source = self.find_source_for_entity(e);
                if source.as_str().unicode_len() == 0 {
                    missing = missing + 1;
                } else {
                    let request = behavior_extraction_prompt(
                        e.label.as_str(),
                        e.entity_type.name(),
                        source.as_str(),
                        none.as_slice(),
                    );
                    let ghost before = task_views(tasks@);
                    let task = LlmTask { cell_id: e.cell_id.clone(), request };
                    let ghost tv = task@;
                    tasks.push(task);
                    assert(task_views(tasks@) =~= before.push(tv));
                }
            }
            i = i + 1;
        }
        assert(all.take(i as int) =~= all);
        (tasks, missing)
    }

    /// Corroborates without the model: every entity gets an empty annotation.
    pub fn deterministic_pass(&self, space_data: &mut SpaceData) -> (r: CorroborationStats)
        ensures
            final(space_data)@ == bare_annotations(old(space_data)@, old(space_data)@.entities),
            final(space_data).stored() == old(space_data).stored(),
            r@ == (StatsView { deterministic_only: old(space_data)@.entities.len(), ..StatsView::zero() }),
    {
        let ghost space = space_data@;
        let ghost all = space.entities;
        let n: usize = space_data.entities.len();
        assert(all.len() == n);
        let mut i: usize = 0;
        assert(space =~= bare_annotations(space, all.take(0)));
        while i < n
            invariant
                i <= n,
                n == all.len(),
                n == space_data.entities@.len(),
                all == space_data@.entities,
                space_data.stored() == old(space_data).stored(),
                space_data@ == bare_annotations(space, all.take(i as int)),
            decreases n - i,
        {
            assert(all.take(i + 1).drop_last() =~= all.take(i as int));
            assert(all[i as int] == space_data.entities@[i as int]@);
            let cell_id = space_data.entities[i].cell_id.clone();
            put_annotation(space_data, cell_id, SemanticAnnotation::default());
            assert(space_data@.entities == all);
            assert(space_data@.entities.len() == space_data.entities@.len());
            i = i + 1;
        }
        assert(all.take(i as int) =~= all);
        CorroborationStats {
            deterministic_only: n,
            corroborated: 0,
            with_discrepancies: 0,
            parse_failures: 0,
            llm_errors: 0,
            no_source: 0,
        }
    }

    /// Takes in what came back of the questions of a plan, in their order.
    pub fn corroborate(&self, space_data: &mut SpaceData, replies: &Vec<LlmReply>, no_source: usize) -> (r:
        CorroborationStats)
        requires
            forall|i: int| 0 <= i < replies@.len() ==> names_answer(#[trigger] replies@[i]@),
        ensures
            (final(space_data)@, r@) == all_absorbed(
                old(space_data)@,
                StatsView { no_source: no_source as nat, ..StatsView::zero() },
                reply_views(replies@),
            ),
            final(space_data).stored() == old(space_data).stored(),
    {
        let ghost space = space_data@;
        let ghost all = reply_views(replies@);
        let ghost start = StatsView { no_source: no_source as nat, ..StatsView::zero() };
        let mut stats = CorroborationStats {
            deterministic_only: 0,
            corroborated: 0,
            with_discrepancies: 0,
            parse_failures: 0,
            llm_errors: 0,
            no_source,
        };
        let mut i: usize = 0;
        assert(stats@ =~= start);
        while i < replies.len()
            invariant
                i <= replies@.len(),
                all == reply_views(replies@),
                forall|k: int| 0 <= k < replies@.len() ==> names_answer(#[trigger] replies@[k]@),
                stats.corroborated <= i,
                stats.with_discrepancies <= i,
                stats.parse_failures <= i,
                stats.llm_errors <= i,
                space_data.stored() == old(space_data).stored(),
                (space_data@, stats@) == all_absorbed(space, start, all.take(i as int)),
            decreases replies.len() - i,
        {
            assert(all[i as int] == replies@[i as int]@);
            assert(all.take(i + 1).drop_last() =~= all.take(i as int));
            let ghost (s0, t0) = (space_data@, stats@);
            match &replies[i] {
                LlmReply::Answer { cell_id, content } => {
                    match LlmAnnotation::from_json(content.as_str()) {
                        Some(a) => {
                            let facts = DeterministicFacts {
                                entity_type: "method".to_owned(),
                                label: cell_id.clone(),
                                has_provenance: true,
                                caller_count: 0,
                                callee_count: 0,
                            };
                            assert(names_answer(replies@[i as int]@));
                            let outcome = compute_corroboration(&facts, &a, cell_id.as_str());
                            put_annotation(space_data, cell_id.clone(), outcome.annotation);
                            stats.corroborated = stats.corroborated + 1;
                            assert(texts(outcome.discrepancies@).len() == outcome.discrepancies@.len());
                            if outcome.discrepancies.len() > 0 {
                                stats.with_discrepancies = stats.with_discrepancies + 1;
                            }
                        },
                        None => {
                            stats.parse_failures = stats.parse_failures + 1;
                            let mut text = "LLM response parse failure for ".to_owned();
                            text.append(cell_id.as_str());
                            put_obstruction(space_data, text);
                        },
                    }
                },
                LlmReply::Failure { cell_id, reason } => {
                    stats.llm_errors = stats.llm_errors + 1;
                    let mut text = "LLM error for ".to_owned();
                    text.append(cell_id.as_str());
                    text.append(": ");
                    text.append(reason.as_str());
                    put_obstruction(space_data, text);
                },
                LlmReply::Lost => {
                    stats.llm_errors = stats.llm_errors + 1;
                },
            }
            assert(stats@ =~= absorbed(s0, t0, all[i as int]).1);
            i = i + 1;
        }
        assert(all.take(i as int) =~= all);
        stats
    }
}

/// Every reply is counted once: as an answer that was taken in, as one that
/// could not be read, or as an error.
pub proof fn law_replies_are_counted(space: SpaceView, stats: StatsView, replies: Seq<ReplyView>)
    ensures
        ({
            let t = all_absorbed(space, stats, replies).1;
            t.corroborated + t.parse_failures + t.llm_errors == stats.corroborated + stats.parse_failures
                + stats.llm_errors + replies.len()
        }),
    decreases replies.len(),
{
    if replies.len() > 0 {
        law_replies_are_counted(space, stats, replies.drop_last());
    }
}

/// Every entity that the model can be asked about either leads to a question
/// or is counted as without a source.
pub proof fn law_plan_covers(sources: Seq<(Seq<char>, Seq<char>)>, entities: Seq<EntityView>)
    ensures
        planned(sources, entities).0.len() + planned(sources, entities).1 == entities.filter(
            |e: EntityView| is_analyzed(e.entity_type),
        ).len(),
    decreases entities.len(),
{
    reveal(Seq::filter);
    if entities.len() > 0 {
        law_plan_covers(sources, entities.drop_last());
    }
}

} // verus!
