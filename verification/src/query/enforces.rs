//! Does a required relation occur from a symbol within a depth bound?
//!
//! The relations form a static graph, not an execution state machine: the
//! answer is one of reachability, not a guarantee over all executions.

use higher_graphen_core::{CoreError, Id};
use higher_graphen_reasoning::model_checking::{
    check_required_event, ModelCheckingOptions, RequiredEventQuery, TemporalCheckReport, TemporalCheckStatus,
};
use higher_graphen_structure::space::InMemorySpaceStore;
use vstd::prelude::*;

use crate::lift::symbolic::pairs;
use crate::lines::trimmed;
use crate::model::ids::{error_message, id_error, message_of, new_id};
use crate::model::space_data::{SpaceData, SpaceView};
use crate::model::store::{is_walk, store_view, valid_id, Direction, StoreView, StoredLink};
use crate::query::resolve::{fqn_of_cell, name_of, not_found, resolve_symbol, resolved, symbol_not_found};
use crate::text::texts;

verus! {

#[derive(Debug)]
pub struct EnforcesResult {
    pub entry_symbol: String,
    pub required_relation: String,
    /// "satisfied", "violated", or "unknown" when the depth bound was exhausted.
    pub status: String,
    /// The bounded reachable state space was fully explored.
    pub exhaustive: bool,
    /// Cells visited during the bounded search, by name; the first twenty.
    pub visited: Vec<String>,
    pub obstructions: Vec<String>,
}

#[verifier::ext_equal]
pub struct EnforcesResultView {
    pub entry_symbol: Seq<char>,
    pub required_relation: Seq<char>,
    pub status: Seq<char>,
    pub exhaustive: bool,
    pub visited: Seq<Seq<char>>,
    pub obstructions: Seq<Seq<char>>,
}

impl View for EnforcesResult {
    type V = EnforcesResultView;

    open spec fn view(&self) -> EnforcesResultView {
        EnforcesResultView {
            entry_symbol: self.entry_symbol@,
            required_relation: self.required_relation@,
            status: self.status@,
            exhaustive: self.exhaustive,
            visited: texts(self.visited@),
            obstructions: texts(self.obstructions@),
        }
    }
}

#[derive(Debug, Clone, Copy, PartialEq, Eq, Structural)]
pub enum EventStatus {
    Satisfied,
    Violated,
    Unknown,
}

/// What a search for an event has found.
#[derive(Debug)]
pub struct EventReport {
    pub status: EventStatus,
    pub exhaustive: bool,
    pub visited: Vec<String>,
    pub obstructions: Vec<(String, String)>,
}

#[verifier::ext_equal]
pub struct EventView {
    pub status: EventStatus,
    pub exhaustive: bool,
    pub visited: Seq<Seq<char>>,
    pub obstructions: Seq<(Seq<char>, Seq<char>)>,
}

impl View for EventReport {
    type V = EventView;

    open spec fn view(&self) -> EventView {
        EventView {
            status: self.status,
            exhaustive: self.exhaustive,
            visited: texts(self.visited@),
            obstructions: pairs(self.obstructions@),
        }
    }
}

/// A relation of the given type starts at the cell.
pub open spec fn starts(links: Seq<StoredLink>, space: Seq<char>, cell: Seq<char>, relation: Seq<char>) -> bool {
    exists|k: int|
        0 <= k < links.len() && (#[trigger] links[k]).space == space && links[k].from == cell && links[k].relation
            == relation
}

/// A cell where the relation starts lies fewer than `max_depth` steps away.
pub open spec fn occurs(
    links: Seq<StoredLink>,
    space: Seq<char>,
    entry: Seq<char>,
    relation: Seq<char>,
    max_depth: usize,
) -> bool {
    exists|cell: Seq<char>, d: nat|
        d < max_depth && #[trigger] is_walk(links, space, Direction::Outgoing, Seq::empty(), entry, cell, d) && starts(
            links,
            space,
            cell,
            relation,
        )
}

/// The question can be asked of the store.
pub open spec fn can_ask(store: StoreView, space: Seq<char>, entry: Seq<char>, relation: Seq<char>) -> bool {
    valid_id(space) && valid_id(entry) && trimmed(relation).len() > 0 && store.spaces.contains(trimmed(space))
        && store.owns(trimmed(space), trimmed(entry))
}

/// What the search for a required event reports, or why there is no search.
pub uninterp spec fn event_report(
    store: StoreView,
    space: Seq<char>,
    entry: Seq<char>,
    relation: Seq<char>,
    max_depth: usize,
) -> Result<EventView, Seq<char>>;

/// A report of the graph library.
#[verifier::external_type_specification]
#[verifier::external_body]
pub struct ExTemporalCheckReport(TemporalCheckReport);

/// What a report holds.
pub uninterp spec fn report_parts(r: TemporalCheckReport) -> EventView;

/// `check_required_event`: a breadth-first search over outgoing relations of
/// any type, which is satisfied when a relation of the required type starts
/// fewer than `max_depth` steps away. It answers when the space holds the
/// entry and the relation type is not blank. What it reports beside the status
/// depends on the store and the question alone.
#[verifier::external_body]
fn check_event(
    store: &InMemorySpaceStore,
    space: &str,
    entry: &str,
    relation: &str,
    max_depth: usize,
) -> (r: Result<TemporalCheckReport, CoreError>)
    ensures
        event_report(store_view(*store), space@, entry@, relation@, max_depth) == match r {
            Ok(x) => Ok::<EventView, Seq<char>>(report_parts(x)),
            Err(e) => Err(error_message(e)),
        },
        r.is_ok() == can_ask(store_view(*store), space@, entry@, relation@),
        r matches Ok(x) ==> (report_parts(x).status == EventStatus::Satisfied) == occurs(
            store_view(*store).links,
            trimmed(space@),
            trimmed(entry@),
            trimmed(relation@),
            max_depth,
        ),
{
    let options = ModelCheckingOptions::new().with_max_depth(max_depth);
    let query = RequiredEventQuery::new(Id::new(space)?, [Id::new(entry)?], [relation.to_string()]);
    check_required_event(&query.with_options(options), store)
}

/// The fields of a `TemporalCheckReport`; the types of obstructions by their
/// names.
#[verifier::external_body]
fn read_report(report: TemporalCheckReport) -> (r: EventReport)
    ensures
        r@ == report_parts(report),
{
    let status = match report.status {
        TemporalCheckStatus::Satisfied => EventStatus::Satisfied,
        TemporalCheckStatus::Violated => EventStatus::Violated,
        TemporalCheckStatus::Unknown => EventStatus::Unknown,
    };
    let visited = report.visited_cell_ids.into_iter().map(Id::into_string).collect();
    let list = report.obstructions.into_iter();
    let obstructions = list.map(|o| (format!("{:?}", o.obstruction_type), o.reason)).collect();
    EventReport { status, exhaustive: report.exhaustive, visited, obstructions }
}

pub open spec fn status_text(status: EventStatus) -> Seq<char> {
    match status {
        EventStatus::Satisfied => "satisfied"@,
        EventStatus::Violated => "violated"@,
        EventStatus::Unknown => "unknown"@,
    }
}

/// The name of a cell; its identifier when it has none.
pub open spec fn name_or_id(index: Seq<(Seq<char>, Seq<char>)>, id: Seq<char>) -> Seq<char> {
    match name_of(index, id) {
        Some(name) => name,
        None => id,
    }
}

/// What is told of a report.
pub open spec fn told(space: SpaceView, entry: Seq<char>, relation: Seq<char>, report: EventView) -> EnforcesResultView {
    let shown = if report.visited.len() > 20 {
        report.visited.take(20)
    } else {
        report.visited
    };
    EnforcesResultView {
        entry_symbol: entry,
        required_relation: relation,
        status: status_text(report.status),
        exhaustive: report.exhaustive,
        visited: shown.map_values(|id: Seq<char>| name_or_id(space.index, id)),
        obstructions: report.obstructions.map_values(|o: (Seq<char>, Seq<char>)| o.0 + ": "@ + o.1),
    }
}

/// Whether a relation occurs from a symbol.
pub open spec fn enforced(
    space: SpaceView,
    store: Option<StoreView>,
    entry: Seq<char>,
    relation: Seq<char>,
    max_depth: usize,
) -> Result<EnforcesResultView, Seq<char>> {
    match (resolved(space.index, entry), store) {
        (None, _) => Err(not_found(entry)),
        (Some(_), None) => Err("HG store unavailable for model checking"@),
        (Some((_, cell_id)), Some(s)) => if !valid_id(cell_id) {
            Err(id_error(cell_id))
        } else {
            match event_report(s, space.id, cell_id, relation, max_depth) {
                Ok(report) => Ok(told(space, entry, relation, report)),
                Err(e) => Err("HG model checking failed: "@ + e),
            }
        },
    }
}

pub open spec fn enforces_result(r: Result<EnforcesResult, String>) -> Result<EnforcesResultView, Seq<char>> {
    match r {
        Ok(x) => Ok(x@),
        Err(e) => Err(e@),
    }
}

/// Tells of a report.
pub fn tell(space_data: &SpaceData, entry: &str, relation: &str, report: &EventReport) -> (r: EnforcesResult)
    ensures
        r@ == told(space_data@, entry@, relation@, report@),
{
    let ghost space = space_data@;
    let ghost rv = report@;
    let ghost shown = if rv.visited.len() > 20 {
        rv.visited.take(20)
    } else {
        rv.visited
    };
    let ghost names = shown.map_values(|id: Seq<char>| name_or_id(space.index, id));
    let mut visited: Vec<String> = Vec::new();
    let mut i: usize = 0;
    while i < report.visited.len() && i < 20
        invariant
            space == space_data@,
            rv == report@,
            rv.visited.len() == report.visited@.len(),
            shown == if rv.visited.len() > 20 {
                rv.visited.take(20)
            } else {
                rv.visited
            },
            names == shown.map_values(|id: Seq<char>| name_or_id(space.index, id)),
            i <= shown.len(),
            i <= 20,
            texts(visited@) == names.take(i as int),
        decreases report.visited.len() - i,
    {
        let ghost before = texts(visited@);
        assert(shown[i as int] == report.visited@[i as int]@);
        let name = match fqn_of_cell(&space_data.fqn_to_cell_id, report.visited[i].as_str()) {
            Some(name) => name.clone(),
            None => report.visited[i].clone(),
        };
        let ghost x = name@;
        assert(x == names[i as int]);
        visited.push(name);
        i = i + 1;
        assert(texts(visited@) =~= before.push(x));
        assert(texts(visited@) =~= names.take(i as int));
    }
    assert(names.take(i as int) =~= names);
    let ghost reasons = rv.obstructions.map_values(|o: (Seq<char>, Seq<char>)| o.0 + ": "@ + o.1);
    let mut obstructions: Vec<String> = Vec::new();
    let mut k: usize = 0;
    while k < report.obstructions.len()
        invariant
            rv == report@,
            reasons == rv.obstructions.map_values(|o: (Seq<char>, Seq<char>)| o.0 + ": "@ + o.1),
            k <= report.obstructions@.len(),
            texts(obstructions@) == reasons.take(k as int),
        decreases report.obstructions.len() - k,
    {
        let ghost before = texts(obstructions@);
        assert(rv.obstructions[k as int] == (report.obstructions@[k as int].0@, report.obstructions@[k as int].1@));
        let mut text = report.obstructions[k].0.clone();
        text.append(": ");
        text.append(report.obstructions[k].1.as_str());
        let ghost x = text@;
        obstructions.push(text);
        k = k + 1;
        assert(texts(obstructions@) =~= before.push(x));
        assert(texts(obstructions@) =~= reasons.take(k as int));
    }
    assert(reasons.take(k as int) =~= reasons);
    let status = match report.status {
        EventStatus::Satisfied => "satisfied",
        EventStatus::Violated => "violated",
        EventStatus::Unknown => "unknown",
    };
    EnforcesResult {
        entry_symbol: entry.to_owned(),
        required_relation: relation.to_owned(),
        status: status.to_owned(),
        exhaustive: report.exhaustive,
        visited,
        obstructions,
    }
}

/// Does a required relation occur from a symbol within a depth bound?
pub fn enforces(space_data: &SpaceData, entry_symbol: &str, required_relation: &str, max_depth: usize) -> (r: Result<
    EnforcesResult,
    String,
>)
    ensures
        enforces_result(r) == enforced(
            space_data@,
            space_data.stored(),
            entry_symbol@,
            required_relation@,
            max_depth,
        ),
        r matches Ok(x) ==> (space_data.stored() matches Some(s) && resolved(space_data@.index, entry_symbol@) matches Some(
            (_, cell_id),
        ) && (x.status@ == "satisfied"@) == occurs(
            s.links,
            trimmed(space_data@.id),
            trimmed(cell_id),
            trimmed(required_relation@),
            max_depth,
        )),
{
    let (_, cell_id) = match resolve_symbol(space_data, entry_symbol) {
        Some(pair) => pair,
        None => {
            return Err(symbol_not_found(entry_symbol));
        },
    };
    let store = match space_data.store() {
        Some(store) => store,
        None => {
            return Err("HG store unavailable for model checking".to_owned());
        },
    };
    match new_id(cell_id) {
        Ok(_) => {},
        Err(e) => {
            return Err(e);
        },
    }
    match check_event(store, space_data.space.id.as_str(), cell_id, required_relation, max_depth) {
        Ok(found) => {
            let report = read_report(found);
            proof {
                reveal_strlit("satisfied");
                reveal_strlit("violated");
                reveal_strlit("unknown");
                assert("satisfied"@.len() == 9 && "violated"@.len() == 8 && "unknown"@.len() == 7);
            }
            Ok(tell(space_data, entry_symbol, required_relation, &report))
        },
        Err(e) => {
            let mut reason = "HG model checking failed: ".to_owned();
            reason.append(message_of(&e).as_str());
            Err(reason)
        },
    }
}

} // verus!
