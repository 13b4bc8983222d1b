//! Completion candidates for unresolved references.
//!
//! Every reference that the lift could not resolve becomes an obstruction,
//! which the graph library turns into a candidate for completion. Candidates
//! are split by their confidence: accepted, rejected or left pending.

use higher_graphen_core::{Confidence as Score, CoreError, Id, Severity, SourceKind, SourceRef};
use higher_graphen_reasoning::completion::{detect_obstruction_completion_candidates, ObstructionCompletionInput};
use higher_graphen_reasoning::obstruction::{Obstruction, ObstructionExplanation, ObstructionType, RequiredResolution};
use vstd::prelude::*;

use crate::corroboration::confidence::is_open;
use crate::lines::{lemma_not_blank, opt_text, trimmed};
use crate::model::graph::{at_least, is_at_least, is_less, less, Confidence, HALF_BITS};
use crate::model::ids::{id_error, message_of, new_id};
use crate::model::relation::relation_text;
use crate::model::space_data::{entry_of, SpaceData, SpaceView, UnresolvedRecord};
use crate::model::store::{lemma_tight, valid_id};
use crate::text::{decimal, decimal_text, lemma_decimal_digits, lemma_decimal_distinct};
use crate::text_map::lookup;

verus! {

/// How candidates split by confidence.
#[derive(Debug, Default, Clone, Copy, PartialEq, Eq, Structural)]
pub struct CompletionStats {
    /// Candidates derived from unresolved references.
    pub candidates: usize,
    /// Candidates whose confidence is at or above the high threshold.
    pub auto_accepted: usize,
    /// Candidates whose confidence is below the low threshold.
    pub auto_rejected: usize,
    /// Candidates between the thresholds, left for further evidence.
    pub pending: usize,
}

/// A missing relation as an obstruction.
#[derive(Debug)]
pub struct MissingRelation {
    pub id: String,
    pub summary: String,
    pub resolution: String,
    pub cell: Option<String>,
}

#[verifier::ext_equal]
pub struct MissingRelationView {
    pub id: Seq<char>,
    pub summary: Seq<char>,
    pub resolution: Seq<char>,
    pub cell: Option<Seq<char>>,
}

impl View for MissingRelation {
    type V = MissingRelationView;

    open spec fn view(&self) -> MissingRelationView {
        MissingRelationView {
            id: self.id@,
            summary: self.summary@,
            resolution: self.resolution@,
            cell: opt_text(self.cell),
        }
    }
}

/// How grave an obstruction is.
#[derive(Debug, Clone, Copy, PartialEq, Eq, Structural)]
pub enum Gravity {
    Low,
    Medium,
    High,
    Critical,
}

/// What a source is.
#[derive(Debug, Clone, Copy, PartialEq, Eq, Structural)]
pub enum Origin {
    Document,
    Log,
    Api,
    Human,
    Ai,
    Code,
    External,
}

/// An obstruction of the graph library.
#[verifier::external_type_specification]
#[verifier::external_body]
pub struct ExObstruction(Obstruction);

/// What an obstruction holds: its space, whether it is a missing morphism, what
/// is missing, how grave it is, its source and how sure it is.
pub struct ObstructionFacts {
    pub space: Seq<char>,
    pub missing_morphism: bool,
    pub missing: MissingRelationView,
    pub gravity: Gravity,
    pub source: (Origin, Seq<char>, Seq<char>),
    pub confidence: Confidence,
}

impl MissingRelationView {
    /// The record without white space around its texts.
    pub open spec fn tidy(self) -> Self {
        MissingRelationView {
            id: trimmed(self.id),
            summary: trimmed(self.summary),
            resolution: trimmed(self.resolution),
            cell: match self.cell {
                Some(c) => Some(trimmed(c)),
                None => None,
            },
        }
    }
}

pub uninterp spec fn obstruction_facts(o: Obstruction) -> ObstructionFacts;

/// The bits of the double that the decimal fraction of so many hundredths is
/// read as.
pub uninterp spec fn score_bits(hundredths: u8) -> u64;

pub open spec fn facts_of(v: Seq<Obstruction>) -> Seq<ObstructionFacts> {
    v.map_values(|o: Obstruction| obstruction_facts(o))
}

/// A missing relation that can be an obstruction.
pub open spec fn is_complete(m: MissingRelationView) -> bool {
    &&& valid_id(m.id)
    &&& trimmed(m.summary).len() > 0
    &&& trimmed(m.resolution).len() > 0
    &&& m.cell matches Some(c) ==> valid_id(c)
}

/// A severity of the graph library.
#[verifier::external_type_specification]
#[verifier::external_body]
pub struct ExSeverity(Severity);

/// How grave a severity is.
pub uninterp spec fn gravity_of(s: Severity) -> Gravity;

/// The variants of `Severity`, by their names.
#[verifier::external_body]
fn make_severity(gravity: Gravity) -> (r: Severity)
    ensures
        gravity_of(r) == gravity,
{
    match gravity {
        Gravity::Low => Severity::Low,
        Gravity::Medium => Severity::Medium,
        Gravity::High => Severity::High,
        Gravity::Critical => Severity::Critical,
    }
}

/// A source of the graph library.
#[verifier::external_type_specification]
#[verifier::external_body]
pub struct ExSourceRef(SourceRef);

/// What a source is, its address and its title.
pub uninterp spec fn source_parts(s: SourceRef) -> (Origin, Seq<char>, Seq<char>);

/// `SourceRef::new` for a kind of source, with its address and its title. It
/// fails where one of these is blank; white space around them is dropped.
#[verifier::external_body]
fn make_source(origin: Origin, uri: &str, title: &str) -> (r: Result<SourceRef, CoreError>)
    ensures
        r.is_ok() == (trimmed(uri@).len() > 0 && trimmed(title@).len() > 0),
        r matches Ok(s) ==> source_parts(s) == (origin, trimmed(uri@), trimmed(title@)),
{
    let kind = match origin {
        Origin::Document => SourceKind::Document,
        Origin::Log => SourceKind::Log,
        Origin::Api => SourceKind::Api,
        Origin::Human => SourceKind::Human,
        Origin::Ai => SourceKind::Ai,
        Origin::Code => SourceKind::Code,
        Origin::External => SourceKind::External,
    };
    SourceRef::new(kind).with_uri(uri)?.with_title(title)
}

/// `Obstruction::new` with `with_required_resolution` and
/// `with_location_cell`: an obstruction for a missing morphism in a space. The
/// confidence is that of its provenance: the hundredths read as a decimal
/// fraction. It fails where an identifier is not valid or a text is blank;
/// white space around the texts is dropped.
#[verifier::external_body]
fn missing_morphism(
    space: &str,
    m: &MissingRelation,
    severity: Severity,
    source: SourceRef,
    hundredths: u8,
) -> (r: Result<Obstruction, CoreError>)
    requires
        is_open(hundredths),
    ensures
        r.is_ok() == (valid_id(space@) && is_complete(m@)),
        r matches Ok(o) ==> obstruction_facts(o) == (ObstructionFacts {
            space: trimmed(space@),
            missing_morphism: true,
            missing: m@.tidy(),
            gravity: gravity_of(severity),
            source: source_parts(source),
            confidence: Confidence { bits: score_bits(hundredths) },
        }),
        r matches Ok(o) ==> hundredths == 50 ==> obstruction_facts(o).confidence.bits == HALF_BITS,
{
    let score = Score::new(format!("0.{hundredths:02}").parse().unwrap())?;
    let provenance = higher_graphen_core::Provenance::new(source, score);
    let (id, space, kind) = (Id::new(m.id.as_str())?, Id::new(space)?, ObstructionType::MissingMorphism);
    let why = ObstructionExplanation::new(m.summary.as_str())?;
    let made = Obstruction::new(id, space, kind, why, severity, provenance);
    let made = made.with_required_resolution(RequiredResolution::new(m.resolution.as_str())?);
    let cell = m.cell.as_deref().map(Id::new).transpose()?;
    Ok(cell.into_iter().fold(made, Obstruction::with_location_cell))
}

/// `detect_obstruction_completion_candidates`: one candidate for each
/// obstruction, in their order and with their confidences, where all of them
/// are missing morphisms of the space under distinct identifiers.
#[verifier::external_body]
fn detect_candidates(space: &str, obstructions: Vec<Obstruction>) -> (r: Result<Vec<Confidence>, CoreError>)
    requires
        valid_id(space@),
        forall|i: int|
            0 <= i < obstructions@.len() ==> {
                let f = #[trigger] facts_of(obstructions@)[i];
                f.missing_morphism && f.space == trimmed(space@)
            },
        forall|i: int, j: int|
            0 <= i < j < obstructions@.len() ==> (#[trigger] facts_of(obstructions@)[i]).missing.id != (
            #[trigger] facts_of(obstructions@)[j]).missing.id,
    ensures
        r.is_ok(),
        r matches Ok(c) ==> c@ == facts_of(obstructions@).map_values(|f: ObstructionFacts| f.confidence),
{
    let input = ObstructionCompletionInput::new(Id::new(space)?, obstructions);
    let found = detect_obstruction_completion_candidates(input)?;
    Ok(found.candidates().iter().map(|c| Confidence { bits: c.confidence.value().to_bits() }).collect())
}

/// How many of the first candidates are accepted, rejected and pending.
pub open spec fn counted(confidences: Seq<Confidence>, high: u64, low: u64) -> (nat, nat, nat)
    decreases confidences.len(),
{
    if confidences.len() == 0 {
        (0, 0, 0)
    } else {
        let (a, r, p) = counted(confidences.drop_last(), high, low);
        let c = confidences.last().bits;
        if is_at_least(c, high) {
            (a + 1, r, p)
        } else if is_less(c, low) {
            (a, r + 1, p)
        } else {
            (a, r, p + 1)
        }
    }
}

impl CompletionStats {
    /// The counts say how many candidates split how.
    pub open spec fn counts(self, confidences: Seq<Confidence>, high: u64, low: u64) -> bool {
        &&& self.candidates == confidences.len()
        &&& (self.auto_accepted as nat, self.auto_rejected as nat, self.pending as nat) == counted(
            confidences,
            high,
            low,
        )
    }
}

/// Splits candidates by two thresholds, which are the bits of doubles.
pub fn split_candidates(confidences: &Vec<Confidence>, high_threshold: u64, low_threshold: u64) -> (r: CompletionStats)
    ensures
        r.counts(confidences@, high_threshold, low_threshold),
{
    let mut r = CompletionStats { candidates: 0, auto_accepted: 0, auto_rejected: 0, pending: 0 };
    let mut i: usize = 0;
    while i < confidences.len()
        invariant
            i <= confidences@.len(),
            r.counts(confidences@.take(i as int), high_threshold, low_threshold),
            r.auto_accepted + r.auto_rejected + r.pending == i,
        decreases confidences.len() - i,
    {
        assert(confidences@.take(i + 1).drop_last() =~= confidences@.take(i as int));
        r.candidates = r.candidates + 1;
        let c: u64 = confidences[i].bits;
        if at_least(c, high_threshold) {
            r.auto_accepted = r.auto_accepted + 1;
        } else if less(c, low_threshold) {
            r.auto_rejected = r.auto_rejected + 1;
        } else {
            r.pending = r.pending + 1;
        }
        i = i + 1;
    }
    assert(confidences@.take(i as int) =~= confidences@);
    r
}

/// The cell of the first unresolved reference, among the first ones, whose
/// cell is no identifier.
pub open spec fn bad_cell(space: SpaceView, n: int) -> Option<Seq<char>>
    decreases n,
{
    if n <= 0 {
        None
    } else {
        match bad_cell(space, n - 1) {
            Some(c) => Some(c),
            None => match lookup(space.index, space.unresolved[n - 1].from_fqn) {
                Some(c) => if valid_id(c) {
                    None
                } else {
                    Some(c)
                },
                None => None,
            },
        }
    }
}

/// Every unresolved reference up to the first whose cell is no identifier
/// names its file.
pub open spec fn names_files(space: SpaceView) -> bool {
    forall|k: int|
        0 <= k < space.unresolved.len() && bad_cell(space, k) is None ==> trimmed(
            (#[trigger] space.unresolved[k]).file,
        ).len() > 0
}

/// An unresolved reference as a missing relation.
pub open spec fn missing_relation(space: SpaceView, k: int) -> MissingRelationView {
    let u = space.unresolved[k];
    MissingRelationView {
        id: "obstruction:unresolved:"@ + decimal_text(k as nat),
        summary: "unresolved "@ + relation_text(u.relation_type) + ": "@ + u.from_fqn + " -> "@ + u.target_text,
        resolution: "resolve reference to "@ + u.target_text,
        cell: lookup(space.index, u.from_fqn),
    }
}

/// The obstruction of an unresolved reference.
pub open spec fn obstruction_of(space: SpaceView, k: int) -> ObstructionFacts {
    let u = space.unresolved[k];
    ObstructionFacts {
        space: trimmed(space.id),
        missing_morphism: true,
        missing: missing_relation(space, k).tidy(),
        gravity: Gravity::Low,
        source: (Origin::Code, trimmed(u.file + "#L"@ + decimal_text(u.line as nat)), trimmed(u.file)),
        confidence: Confidence { bits: HALF_BITS },
    }
}

/// The confidences of the candidates: each reference is as likely as not.
pub open spec fn candidate_confidences(n: nat) -> Seq<Confidence> {
    Seq::new(n, |i: int| Confidence { bits: HALF_BITS })
}

proof fn lemma_missing_id(k: nat)
    ensures
        valid_id("obstruction:unresolved:"@ + decimal_text(k)),
        trimmed("obstruction:unresolved:"@ + decimal_text(k)) == "obstruction:unresolved:"@ + decimal_text(k),
{
    reveal_strlit("obstruction:unresolved:");
    let id = "obstruction:unresolved:"@ + decimal_text(k);
    lemma_decimal_digits(k);
    assert(id.last() == decimal_text(k).last());
    lemma_tight(id);
}

proof fn lemma_complete(space: SpaceView, k: int)
    requires
        0 <= k < space.unresolved.len(),
        bad_cell(space, k + 1) is None,
    ensures
        is_complete(missing_relation(space, k)),
{
    let m = missing_relation(space, k);
    reveal_strlit("unresolved ");
    reveal_strlit("resolve reference to ");
    lemma_missing_id(k as nat);
    lemma_not_blank(m.summary, 0);
    lemma_not_blank(m.resolution, 0);
}

fn describe(u: &UnresolvedRecord, k: usize, cell: Option<String>) -> (r: MissingRelation)
    ensures
        r.id@ == "obstruction:unresolved:"@ + decimal_text(k as nat),
        r.summary@ == "unresolved "@ + relation_text(u.relation_type) + ": "@ + u.from_fqn@ + " -> "@ + u.target_text@,
        r.resolution@ == "resolve reference to "@ + u.target_text@,
        r.cell == cell,
{
    let mut id = "obstruction:unresolved:".to_owned();
    id.append(decimal(k as u128).as_str());
    let mut summary = "unresolved ".to_owned();
    summary.append(u.relation_type.relation_type_str());
    summary.append(": ");
    summary.append(u.from_fqn.as_str());
    summary.append(" -> ");
    summary.append(u.target_text.as_str());
    let mut resolution = "resolve reference to ".to_owned();
    resolution.append(u.target_text.as_str());
    MissingRelation { id, summary, resolution, cell }
}

/// Turns unresolved references into candidates for completion and splits them
/// by confidence.
pub fn run_obstruction_completion(space_data: &SpaceData, high_threshold: u64, low_threshold: u64) -> (r: Result<
    CompletionStats,
    String,
>)
    requires
        valid_id(space_data@.id),
        names_files(space_data@),
    ensures
        match bad_cell(space_data@, space_data@.unresolved.len() as int) {
            Some(c) => r matches Err(e) && e@ == id_error(c),
            None => r matches Ok(s) && s.counts(
                candidate_confidences(space_data@.unresolved.len()),
                high_threshold,
                low_threshold,
            ),
        },
{
    let ghost space = space_data@;
    let ghost all = space.unresolved;
    let ghost own = trimmed(space.id);
    assert(all.len() == space_data.unresolved@.len());
    let mut obstructions: Vec<Obstruction> = Vec::new();
    let mut i: usize = 0;
    while i < space_data.unresolved.len()
        invariant
            i <= space_data.unresolved@.len(),
            space == space_data@,
            all == space.unresolved,
            all.len() == space_data.unresolved@.len(),
            own == trimmed(space.id),
            valid_id(space.id),
            names_files(space),
            bad_cell(space, i as int) is None,
            obstructions@.len() == i,
            forall|k: int|
                0 <= k < i ==> (#[trigger] facts_of(obstructions@)[k]) == obstruction_of(space, k),
        decreases space_data.unresolved.len() - i,
    {
        let u = &space_data.unresolved[i];
        assert(all[i as int] == u@);
        let cell: Option<String> = match entry_of(&space_data.fqn_to_cell_id, u.from_fqn.as_str()) {
            Some(c) => {
                match new_id(c.as_str()) {
                    Ok(_) => {},
                    Err(e) => {
                        proof {
                            lemma_bad_cell_stays(space, i + 1, all.len() as int);
                        }
                        return Err(e);
                    },
                }
                Some(c.clone())
            },
            None => None,
        };
        let m = describe(u, i, cell);
        assert(m@ =~= missing_relation(space, i as int));
        proof {
            lemma_complete(space, i as int);
            lemma_missing_id(i as nat);
        }
        let mut uri = u.file.clone();
        uri.append("#L");
        uri.append(decimal(u.line as u128).as_str());
        proof {
            reveal_strlit("#L");
            lemma_not_blank(uri@, u.file@.len() as int);
        }
        let source = match make_source(Origin::Code, uri.as_str(), u.file.as_str()) {
            Ok(p) => p,
            Err(e) => {
                return Err(message_of(&e));
            },
        };
        let o = match missing_morphism(space_data.space.id.as_str(), &m, make_severity(Gravity::Low), source, 50) {
            Ok(o) => o,
            Err(e) => {
                return Err(message_of(&e));
            },
        };
        let ghost before = facts_of(obstructions@);
        obstructions.push(o);
        assert(facts_of(obstructions@) =~= before.push(obstruction_facts(o)));
        i = i + 1;
    }
    assert forall|a: int, b: int| 0 <= a < b < obstructions@.len() implies (#[trigger] facts_of(
        obstructions@,
    )[a]).missing.id != (#[trigger] facts_of(obstructions@)[b]).missing.id by {
        let p = "obstruction:unresolved:"@;
        lemma_missing_id(a as nat);
        lemma_missing_id(b as nat);
        if facts_of(obstructions@)[a].missing.id == facts_of(obstructions@)[b].missing.id {
            assert((p + decimal_text(a as nat)).skip(p.len() as int) =~= decimal_text(a as nat));
            assert((p + decimal_text(b as nat)).skip(p.len() as int) =~= decimal_text(b as nat));
            lemma_decimal_distinct(a as nat, b as nat);
        }
    }
    match detect_candidates(space_data.space.id.as_str(), obstructions) {
        Ok(confidences) => {
            assert(confidences@ =~= candidate_confidences(all.len()));
            Ok(split_candidates(&confidences, high_threshold, low_threshold))
        },
        Err(e) => Err(message_of(&e)),
    }
}

proof fn lemma_bad_cell_stays(space: SpaceView, n: int, m: int)
    requires
        bad_cell(space, n) is Some,
        0 <= n <= m,
    ensures
        bad_cell(space, m) == bad_cell(space, n),
    decreases m - n,
{
    if n < m {
        lemma_bad_cell_stays(space, n, m - 1);
    }
}

/// Every candidate is accepted, rejected or pending, and only one of these.
pub proof fn law_candidates_split(confidences: Seq<Confidence>, high: u64, low: u64)
    ensures
        ({
            let (a, r, p) = counted(confidences, high, low);
            a + r + p == confidences.len()
        }),
    decreases confidences.len(),
{
    if confidences.len() > 0 {
        law_candidates_split(confidences.drop_last(), high, low);
    }
}

} // verus!
