//! Lifts Java sources into a space of cells and relations.

use vstd::prelude::*;

use crate::lift::encoding::{decode_source, source_text, MAX_BYTES};
use crate::lift::entity_extractor::{entities_in, witness_views, EntityExtractor, EntityFacts, Origin};
use crate::lift::relation_extractor::{relations_in, Known, OpenRelation, RelationExtractor, RelationFacts};
use crate::lift::syntax::{fits, java_nodes, parse_java, rows_fit, source_fits, NodeView, SyntaxTree};
use crate::lines::{trim, trimmed};
use crate::model::cell_factory::CellFactory;
use crate::model::derivation::DerivationSource;
use crate::model::entity::{cell_type_to_entity_type, entity_type_from};
use crate::model::graph::{Cell, CellView, Incidence, LinkView};
use crate::model::ids::{id_error, new_id};
use crate::model::relation::relation_name;
use crate::model::space_data::{
    copy_entries, index_view, lemma_view_position, put_entry, store_of, EntityRecord, EntityView, RelationRecord, SpaceData,
    SpaceView, UnresolvedRecord, UnresolvedView,
};
use crate::model::store::valid_id;
use crate::model::witness::{WitnessInfo, WitnessView};
use crate::query::resolve::{cell_views, cell_with, entity_views, find_cell};
use crate::text::{chars_of, texts};
use crate::text_map::{lemma_key_position, lookup, with_entry, TextMap};

verus! {

/// What to lift, and under which name. The patterns select files below the
/// root.
pub struct LiftConfig {
    pub root_path: String,
    pub file_patterns: Vec<String>,
    pub exclude_patterns: Vec<String>,
    pub space_id: String,
    pub space_label: String,
    /// Names that a language server has resolved, by the text that uses them.
    pub resolved_cache: TextMap<String>,
}

impl Default for LiftConfig {
    fn default() -> (r: Self)
        ensures
            r.root_path@ == "."@,
            texts(r.file_patterns@) == seq!["**/*.java"@],
            r.exclude_patterns@.len() == 0,
            r.space_id@ == "default"@,
            r.space_label@ == "Java Project"@,
            r.resolved_cache.entries().len() == 0,
    {
        let mut file_patterns: Vec<String> = Vec::new();
        file_patterns.push("**/*.java".to_owned());
        assert(texts(file_patterns@) =~= seq!["**/*.java"@]);
        LiftConfig {
            root_path: ".".to_owned(),
            file_patterns,
            exclude_patterns: Vec::new(),
            space_id: "default".to_owned(),
            space_label: "Java Project".to_owned(),
            resolved_cache: TextMap::new(),
        }
    }
}

#[derive(Debug, Clone, Copy, PartialEq, Eq, Structural)]
pub enum DiagnosticSeverity {
    Warning,
    Error,
}

#[derive(Debug)]
pub struct LiftDiagnostic {
    pub file: String,
    pub message: String,
    pub severity: DiagnosticSeverity,
}

#[verifier::ext_equal]
pub struct DiagnosticView {
    pub file: Seq<char>,
    pub message: Seq<char>,
    pub severity: DiagnosticSeverity,
}

impl View for LiftDiagnostic {
    type V = DiagnosticView;

    open spec fn view(&self) -> DiagnosticView {
        DiagnosticView { file: self.file@, message: self.message@, severity: self.severity }
    }
}

/// A use of a name that is not among the known entities.
#[derive(Debug)]
pub struct UnresolvedInfo {
    pub target_text: String,
    pub file: String,
    pub line: u32,
    pub column: u32,
}

#[verifier::ext_equal]
pub struct UnresolvedUse {
    pub target_text: Seq<char>,
    pub file: Seq<char>,
    pub line: u32,
    pub column: u32,
}

impl View for UnresolvedInfo {
    type V = UnresolvedUse;

    open spec fn view(&self) -> UnresolvedUse {
        UnresolvedUse { target_text: self.target_text@, file: self.file@, line: self.line, column: self.column }
    }
}

pub struct LiftResult {
    pub space_data: SpaceData,
    pub diagnostics: Vec<LiftDiagnostic>,
}

/// A source file: its path, its path below the root, and its bytes or why they
/// could not be read.
#[derive(Debug)]
pub struct SourceFile {
    pub path: String,
    pub rel_path: String,
    pub content: Result<Vec<u8>, String>,
}

#[verifier::ext_equal]
pub struct SourceView {
    pub path: Seq<char>,
    pub rel_path: Seq<char>,
    pub content: Result<Seq<u8>, Seq<char>>,
}

impl View for SourceFile {
    type V = SourceView;

    open spec fn view(&self) -> SourceView {
        SourceView {
            path: self.path@,
            rel_path: self.rel_path@,
            content: match self.content {
                Ok(bytes) => Ok(bytes@),
                Err(e) => Err(e@),
            },
        }
    }
}

pub open spec fn source_views(v: Seq<SourceFile>) -> Seq<SourceView> {
    v.map_values(|s: SourceFile| s@)
}

/// Every file has a path below the root.
pub open spec fn paths_given(sources: Seq<SourceView>) -> bool {
    forall|i: int| 0 <= i < sources.len() ==> trimmed((#[trigger] sources[i]).rel_path).len() > 0
}

/// Whether every file has a path that is not blank.
pub fn have_paths(sources: &Vec<SourceFile>) -> (r: bool)
    ensures
        r == paths_given(source_views(sources@)),
{
    let ghost all = source_views(sources@);
    let mut i: usize = 0;
    while i < sources.len()
        invariant
            i <= sources@.len(),
            all == source_views(sources@),
            all.len() == sources@.len(),
            forall|k: int| 0 <= k < i ==> trimmed((#[trigger] all[k]).rel_path).len() > 0,
        decreases sources.len() - i,
    {
        assert(all[i as int] == sources@[i as int]@);
        let path = chars_of(sources[i].rel_path.as_str());
        if trim(path.as_slice()).len() == 0 {
            assert(trimmed(all[i as int].rel_path).len() == 0);
            return false;
        }
        i = i + 1;
    }
    true
}

/// The syntax tree of a file, or why there is none.
pub open spec fn parsed(s: SourceView) -> Result<Seq<NodeView>, Seq<char>> {
    match s.content {
        Err(e) => Err(e),
        Ok(bytes) => {
            let text = source_text(bytes);
            if bytes.len() > MAX_BYTES || !fits(text) {
                Err("Failed to parse "@ + s.path)
            } else {
                match java_nodes(text) {
                    Some(t) => Ok(t),
                    None => Err("Failed to parse "@ + s.path),
                }
            }
        },
    }
}

/// What the first pass over the files has found.
#[verifier::ext_equal]
pub struct EntityPass {
    pub count: int,
    pub facts: Seq<EntityFacts>,
    pub diagnostics: Seq<DiagnosticView>,
}

/// The entities of the first `n` files.
pub open spec fn entity_pass(sources: Seq<SourceView>, space: Seq<char>, n: int) -> EntityPass
    decreases n,
{
    if n <= 0 {
        EntityPass { count: 0, facts: Seq::empty(), diagnostics: Seq::empty() }
    } else {
        let before = entity_pass(sources, space, n - 1);
        let s = sources[n - 1];
        match parsed(s) {
            Err(e) => EntityPass {
                diagnostics: before.diagnostics.push(
                    DiagnosticView {
                        file: s.path,
                        message: "Parse error: "@ + e,
                        severity: DiagnosticSeverity::Error,
                    },
                ),
                ..before
            },
            Ok(t) => {
                let f = entities_in(
                    t,
                    0,
                    t.len() as int,
                    Seq::empty(),
                    EntityExtractor::empty_facts(before.count),
                    Origin { space, file: s.rel_path },
                );
                EntityPass { count: f.count, facts: before.facts.push(f), ..before }
            },
        }
    }
}

/// A map with the first `n` entries of another.
pub open spec fn with_entries(
    map: Seq<(Seq<char>, Seq<char>)>,
    more: Seq<(Seq<char>, Seq<char>)>,
    n: int,
) -> Seq<(Seq<char>, Seq<char>)>
    decreases n,
{
    if n <= 0 {
        map
    } else {
        with_entry(with_entries(map, more, n - 1), more[n - 1].0, more[n - 1].1)
    }
}

/// The names of the first `n` files.
pub open spec fn all_names(facts: Seq<EntityFacts>, n: int) -> Seq<(Seq<char>, Seq<char>)>
    decreases n,
{
    if n <= 0 {
        Seq::empty()
    } else {
        with_entries(all_names(facts, n - 1), facts[n - 1].ids, facts[n - 1].ids.len() as int)
    }
}

/// The cells of the first `n` files.
pub open spec fn all_cells(facts: Seq<EntityFacts>, n: int) -> Seq<CellView>
    decreases n,
{
    if n <= 0 {
        Seq::empty()
    } else {
        all_cells(facts, n - 1) + facts[n - 1].cells
    }
}

/// A place that is nowhere.
pub open spec fn no_witness() -> WitnessView {
    WitnessView {
        file: Seq::empty(),
        start_line: 0,
        end_line: 0,
        start_col: 0,
        end_col: 0,
        derivation_source: DerivationSource::TreeSitter,
    }
}

/// The records of the first `n` names of a file.
pub open spec fn records_of(f: EntityFacts, n: int) -> Seq<EntityView>
    decreases n,
{
    if n <= 0 {
        Seq::empty()
    } else {
        let before = records_of(f, n - 1);
        let (fqn, id) = f.ids[n - 1];
        match cell_with(f.cells, id) {
            None => before,
            Some(i) => before.push(
                EntityView {
                    fqn,
                    cell_id: f.cells[i].id,
                    entity_type: entity_type_from(f.cells[i].cell_type),
                    label: match f.cells[i].label {
                        Some(l) => l,
                        None => Seq::empty(),
                    },
                    witness: match lookup(f.witnesses, fqn) {
                        Some(w) => w,
                        None => no_witness(),
                    },
                },
            ),
        }
    }
}

/// The records of the first `n` files.
pub open spec fn all_records(facts: Seq<EntityFacts>, n: int) -> Seq<EntityView>
    decreases n,
{
    if n <= 0 {
        Seq::empty()
    } else {
        all_records(facts, n - 1) + records_of(facts[n - 1], facts[n - 1].ids.len() as int)
    }
}

/// What the second pass over the files has found.
#[verifier::ext_equal]
pub struct RelationPass {
    pub count: int,
    pub links: Seq<LinkView>,
    pub unresolved: Seq<UnresolvedView>,
    pub uses: Seq<UnresolvedUse>,
    pub diagnostics: Seq<DiagnosticView>,
}

pub open spec fn unresolved_record(u: OpenRelation) -> UnresolvedView {
    UnresolvedView {
        relation_type: u.relation_type,
        from_fqn: u.from_fqn,
        target_text: u.target_text,
        file: u.witness.file,
        line: u.witness.start_line,
    }
}

pub open spec fn unresolved_use(u: OpenRelation, file: Seq<char>) -> UnresolvedUse {
    UnresolvedUse { target_text: u.target_text, file, line: u.witness.start_line, column: u.witness.start_col }
}

pub open spec fn unresolved_warning(u: OpenRelation, path: Seq<char>) -> DiagnosticView {
    DiagnosticView {
        file: path,
        message: "Unresolved "@ + relation_name(u.relation_type) + ": "@ + u.from_fqn + " → "@ + u.target_text,
        severity: DiagnosticSeverity::Warning,
    }
}

/// The facts about a file whose relations have not been looked at.
pub open spec fn no_relations(count: int) -> RelationFacts {
    RelationFacts { count, package: None, links: Seq::empty(), unresolved: Seq::empty() }
}

/// The relations of the first `n` files, given what is known of all files.
pub open spec fn relation_pass(sources: Seq<SourceView>, k: Known, start: int, n: int) -> RelationPass
    decreases n,
{
    if n <= 0 {
        RelationPass {
            count: start,
            links: Seq::empty(),
            unresolved: Seq::empty(),
            uses: Seq::empty(),
            diagnostics: Seq::empty(),
        }
    } else {
        let before = relation_pass(sources, k, start, n - 1);
        let s = sources[n - 1];
        match parsed(s) {
            Err(e) => RelationPass {
                diagnostics: before.diagnostics.push(
                    DiagnosticView {
                        file: s.path,
                        message: "Relation extraction error: "@ + e,
                        severity: DiagnosticSeverity::Error,
                    },
                ),
                ..before
            },
            Ok(t) => {
                let f = relations_in(
                    t,
                    0,
                    t.len() as int,
                    Seq::empty(),
                    no_relations(before.count),
                    Known { file: s.rel_path, ..k },
                );
                RelationPass {
                    count: f.count,
                    links: before.links + f.links,
                    unresolved: before.unresolved + f.unresolved.map_values(|u: OpenRelation| unresolved_record(u)),
                    uses: before.uses + f.unresolved.map_values(|u: OpenRelation| unresolved_use(u, s.rel_path)),
                    diagnostics: before.diagnostics + f.unresolved.map_values(
                        |u: OpenRelation| unresolved_warning(u, s.path),
                    ),
                }
            },
        }
    }
}

/// What is known of a project after the first pass.
pub open spec fn known_after(
    pass: EntityPass,
    space: Seq<char>,
    resolved: Seq<(Seq<char>, Seq<char>)>,
) -> Known {
    Known { space, file: Seq::empty(), ids: all_names(pass.facts, pass.facts.len() as int), resolved }
}

/// A lifted project.
#[verifier::ext_equal]
pub struct LiftView {
    pub space: SpaceView,
    pub diagnostics: Seq<DiagnosticView>,
}

/// The space that is lifted from files, with what went wrong.
pub open spec fn lifted(
    sources: Seq<SourceView>,
    space: Seq<char>,
    label: Seq<char>,
    resolved: Seq<(Seq<char>, Seq<char>)>,
) -> LiftView {
    let n = sources.len() as int;
    let first = entity_pass(sources, space, n);
    let k = known_after(first, space, resolved);
    let second = relation_pass(sources, k, first.count, n);
    LiftView {
        space: SpaceView {
            id: space,
            name: trimmed(label),
            cell_ids: all_cells(first.facts, first.facts.len() as int).map_values(|c: CellView| c.id),
            incidence_ids: second.links.map_values(|l: LinkView| l.id),
            cells: all_cells(first.facts, first.facts.len() as int),
            links: second.links,
            entities: all_records(first.facts, first.facts.len() as int),
            relations: Seq::empty(),
            index: k.ids,
            annotations: Seq::empty(),
            obstructions: Seq::empty(),
            unresolved: second.unresolved,
        },
        diagnostics: first.diagnostics + second.diagnostics,
    }
}

/// The names that are used in files and not declared there.
pub open spec fn unresolved_uses(sources: Seq<SourceView>, space: Seq<char>) -> Seq<UnresolvedUse> {
    let n = sources.len() as int;
    let first = entity_pass(sources, space, n);
    relation_pass(sources, known_after(first, space, Seq::empty()), first.count, n).uses
}

pub open spec fn lift_result(r: Result<LiftResult, String>) -> Result<LiftView, Seq<char>> {
    match r {
        Ok(x) => Ok(
            LiftView { space: x.space_data@, diagnostics: x.diagnostics@.map_values(|d: LiftDiagnostic| d@) },
        ),
        Err(e) => Err(e@),
    }
}

fn parse_source(s: &SourceFile) -> (r: Result<SyntaxTree, String>)
    ensures
        match r {
            Ok(tree) => parsed(s@) == Ok::<Seq<NodeView>, Seq<char>>(tree@) && rows_fit(tree@),
            Err(e) => parsed(s@) == Err::<Seq<NodeView>, Seq<char>>(e@),
        },
{
    match &s.content {
        Err(e) => Err(e.clone()),
        Ok(bytes) => {
            if bytes.len() <= MAX_BYTES {
                let text = decode_source(bytes.as_slice());
                if source_fits(text.as_str()) {
                    match parse_java(text.as_str()) {
                        Some(tree) => {
                            return Ok(tree);
                        },
                        None => {},
                    }
                }
            }
            let mut message = "Failed to parse ".to_owned();
            message.append(s.path.as_str());
            Err(message)
        },
    }
}

spec fn diagnostic_views(v: Seq<LiftDiagnostic>) -> Seq<DiagnosticView> {
    v.map_values(|d: LiftDiagnostic| d@)
}

fn report(diagnostics: &mut Vec<LiftDiagnostic>, file: &str, prefix: &str, reason: &str, severity: DiagnosticSeverity)
    ensures
        diagnostic_views(final(diagnostics)@) == diagnostic_views(old(diagnostics)@).push(
            DiagnosticView { file: file@, message: prefix@ + reason@, severity },
        ),
{
    let ghost before = diagnostic_views(diagnostics@);
    let mut message = prefix.to_owned();
    message.append(reason);
    let item = LiftDiagnostic { file: file.to_owned(), message, severity };
    let ghost iv = item@;
    diagnostics.push(item);
    assert(diagnostic_views(diagnostics@) =~= before.push(iv));
}

/// The extractors hold the facts of a pass.
spec fn hold_facts(extractors: Seq<EntityExtractor>, facts: Seq<EntityFacts>) -> bool {
    &&& extractors.len() == facts.len()
    &&& forall|i: int| 0 <= i < facts.len() ==> (#[trigger] extractors[i]).facts(facts[i].count) == facts[i]
}

/// First pass: the entities of all files.
fn collect_entities(sources: &Vec<SourceFile>, factory: &mut CellFactory, diagnostics: &mut Vec<LiftDiagnostic>) -> (r:
    Vec<EntityExtractor>)
    requires
        paths_given(source_views(sources@)),
        old(factory).count() == 0,
        old(diagnostics)@.len() == 0,
    ensures
        final(factory).space() == old(factory).space(),
        final(factory).count() == entity_pass(
            source_views(sources@),
            old(factory).space(),
            sources@.len() as int,
        ).count,
        hold_facts(r@, entity_pass(source_views(sources@), old(factory).space(), sources@.len() as int).facts),
        diagnostic_views(final(diagnostics)@) == entity_pass(
            source_views(sources@),
            old(factory).space(),
            sources@.len() as int,
        ).diagnostics,
{
    let ghost all = source_views(sources@);
    let ghost space = factory.space();
    let mut r: Vec<EntityExtractor> = Vec::new();
    let mut i: usize = 0;
    assert(diagnostic_views(diagnostics@) =~= Seq::empty());
    while i < sources.len()
        invariant
            paths_given(all),
            all == source_views(sources@),
            space == factory.space(),
            i <= sources@.len(),
            factory.count() == entity_pass(all, space, i as int).count,
            hold_facts(r@, entity_pass(all, space, i as int).facts),
            diagnostic_views(diagnostics@) == entity_pass(all, space, i as int).diagnostics,
        decreases sources.len() - i,
    {
        let s = &sources[i];
        assert(all[i as int] == s@);
        let ghost before = entity_pass(all, space, i as int);
        let ghost held = r@;
        match parse_source(s) {
            Ok(tree) => {
                let mut extractor = EntityExtractor::new(s.rel_path.as_str());
                assert(extractor.facts(before.count) == EntityExtractor::empty_facts(before.count));
                extractor.extract(&tree, factory);
                r.push(extractor);
                proof {
                    let after = entity_pass(all, space, i + 1).facts;
                    assert forall|j: int| 0 <= j < after.len() implies (#[trigger] r@[j]).facts(after[j].count)
                        == after[j] by {
                        if j < before.facts.len() {
                            assert(held[j].facts(before.facts[j].count) == before.facts[j]);
                        }
                    }
                }
            },
            Err(e) => {
                report(diagnostics, s.path.as_str(), "Parse error: ", e.as_str(), DiagnosticSeverity::Error);
            },
        }
        i = i + 1;
    }
    r
}

fn merge_names(extractors: &Vec<EntityExtractor>, Ghost(facts): Ghost<Seq<EntityFacts>>) -> (r: TextMap<String>)
    requires
        hold_facts(extractors@, facts),
    ensures
        index_view(r) == all_names(facts, facts.len() as int),
{
    let mut r: TextMap<String> = TextMap::new();
    let mut i: usize = 0;
    assert(index_view(r) =~= Seq::empty());
    while i < extractors.len()
        invariant
            hold_facts(extractors@, facts),
            i <= extractors@.len(),
            index_view(r) == all_names(facts, i as int),
        decreases extractors.len() - i,
    {
        let names = &extractors[i].fqn_to_cell_id;
        let ghost ids = facts[i as int].ids;
        assert(extractors@[i as int].facts(facts[i as int].count) == facts[i as int]);
        assert(index_view(*names) == ids);
        let n: usize = names.len();
        let mut k: usize = 0;
        while k < n
            invariant
                ids == index_view(*names),
                n == names.entries().len(),
                k <= n,
                index_view(r) == with_entries(all_names(facts, i as int), ids, k as int),
            decreases n - k,
        {
            assert(ids[k as int] == (names.entries()[k as int].0, names.entries()[k as int].1@));
            put_entry(&mut r, names.key_at(k).clone(), names.value_at(k).clone());
            k = k + 1;
        }
        i = i + 1;
    }
    r
}

fn merge_cells(extractors: &Vec<EntityExtractor>, Ghost(facts): Ghost<Seq<EntityFacts>>) -> (r: Vec<Cell>)
    requires
        hold_facts(extractors@, facts),
    ensures
        cell_views(r@) == all_cells(facts, facts.len() as int),
{
    let mut r: Vec<Cell> = Vec::new();
    let mut i: usize = 0;
    assert(cell_views(r@) =~= Seq::empty());
    while i < extractors.len()
        invariant
            hold_facts(extractors@, facts),
            i <= extractors@.len(),
            cell_views(r@) == all_cells(facts, i as int),
        decreases extractors.len() - i,
    {
        let cells = &extractors[i].cells;
        let ghost own = facts[i as int].cells;
        assert(extractors@[i as int].facts(facts[i as int].count) == facts[i as int]);
        assert(cell_views(cells@) =~= own);
        let mut k: usize = 0;
        assert(own.take(0) =~= Seq::empty());
        assert(all_cells(facts, i as int) + own.take(0) =~= all_cells(facts, i as int));
        while k < cells.len()
            invariant
                own == cell_views(cells@),
                k <= cells@.len(),
                cell_views(r@) == all_cells(facts, i as int) + own.take(k as int),
            decreases cells.len() - k,
        {
            let ghost before = cell_views(r@);
            let c = cells[k].copied();
            let ghost cv = c@;
            assert(own[k as int] == cv);
            r.push(c);
            k = k + 1;
            assert(cell_views(r@) =~= before.push(cv));
            assert(cell_views(r@) =~= all_cells(facts, i as int) + own.take(k as int));
        }
        assert(own.take(k as int) =~= own);
        i = i + 1;
    }
    r
}

fn copy_witness(map: &TextMap<WitnessInfo>, fqn: &str) -> (r: WitnessInfo)
    ensures
        r@ == match lookup(witness_views(*map), fqn@) {
            Some(w) => w,
            None => no_witness(),
        },
{
    proof {
        let f = |v: WitnessInfo| v@;
        let es = map.entries();
        lemma_view_position(es, f, fqn@);
        lemma_key_position(es, fqn@);
        assert(witness_views(*map) =~= es.map_values(|e: (Seq<char>, WitnessInfo)| (e.0, f(e.1))));
    }
    match map.get(fqn) {
        Some(w) => w.copied(),
        None => {
            let r = WitnessInfo {
                file: String::new(),
                start_line: 0,
                end_line: 0,
                start_col: 0,
                end_col: 0,
                derivation_source: DerivationSource::TreeSitter,
            };
            assert(r@ =~= no_witness());
            r
        },
    }
}

fn add_records(records: &mut Vec<EntityRecord>, extractor: &EntityExtractor, Ghost(f): Ghost<EntityFacts>)
    requires
        extractor.facts(f.count) == f,
    ensures
        entity_views(final(records)@) == entity_views(old(records)@) + records_of(f, f.ids.len() as int),
{
    let ghost start = entity_views(records@);
    let names = &extractor.fqn_to_cell_id;
    let n: usize = names.len();
    let mut k: usize = 0;
    assert(f.cells == cell_views(extractor.cells@));
    assert(start + records_of(f, 0) =~= start);
    while k < n
        invariant
            extractor.facts(f.count) == f,
            f.cells == cell_views(extractor.cells@),
            *names == extractor.fqn_to_cell_id,
            n == names.entries().len(),
            k <= n,
            entity_views(records@) == start + records_of(f, k as int),
        decreases n - k,
    {
        let ghost before = entity_views(records@);
        assert(f.ids[k as int] == (names.entries()[k as int].0, names.entries()[k as int].1@));
        let fqn = names.key_at(k);
        let id = names.value_at(k);
        match find_cell(&extractor.cells, id.as_str()) {
            Some(at) => {
                let cell = &extractor.cells[at];
                assert(f.cells[at as int] == cell@);
                let label = match &cell.label {
                    Some(l) => l.clone(),
                    None => String::new(),
                };
                assert(cell.label is None ==> label@ =~= Seq::empty());
                let record = EntityRecord {
                    fqn: fqn.clone(),
                    cell_id: cell.id.clone(),
                    entity_type: cell_type_to_entity_type(cell.cell_type.as_str()),
                    label,
                    witness: copy_witness(&extractor.fqn_to_witness, fqn.as_str()),
                };
                let ghost rv = record@;
                records.push(record);
                assert(entity_views(records@) =~= before.push(rv));
            },
            None => {},
        }
        k = k + 1;
        assert(entity_views(records@) =~= start + records_of(f, k as int));
    }
}

fn merge_records(extractors: &Vec<EntityExtractor>, Ghost(facts): Ghost<Seq<EntityFacts>>) -> (r: Vec<EntityRecord>)
    requires
        hold_facts(extractors@, facts),
    ensures
        entity_views(r@) == all_records(facts, facts.len() as int),
{
    let mut r: Vec<EntityRecord> = Vec::new();
    let mut i: usize = 0;
    assert(entity_views(r@) =~= Seq::empty());
    while i < extractors.len()
        invariant
            hold_facts(extractors@, facts),
            i <= extractors@.len(),
            entity_views(r@) == all_records(facts, i as int),
        decreases extractors.len() - i,
    {
        assert(extractors@[i as int].facts(facts[i as int].count) == facts[i as int]);
        add_records(&mut r, &extractors[i], Ghost(facts[i as int]));
        i = i + 1;
    }
    r
}

/// What the second pass collects.
struct Relations {
    links: Vec<Incidence>,
    unresolved: Vec<UnresolvedRecord>,
    uses: Vec<UnresolvedInfo>,
    diagnostics: Vec<LiftDiagnostic>,
}

impl Relations {
    spec fn found(self, count: int) -> RelationPass {
        RelationPass {
            count,
            links: self.links@.map_values(|i: Incidence| i@),
            unresolved: self.unresolved@.map_values(|u: UnresolvedRecord| u@),
            uses: self.uses@.map_values(|u: UnresolvedInfo| u@),
            diagnostics: diagnostic_views(self.diagnostics@),
        }
    }

    /// Adds what one file has.
    fn add_file(&mut self, extractor: &mut RelationExtractor, s: &SourceFile, Ghost(count): Ghost<int>)
        ensures
            final(extractor).kept(*old(extractor)),
            final(self).found(count) == (RelationPass {
                count,
                links: old(self).found(count).links + old(extractor).facts(count).links,
                unresolved: old(self).found(count).unresolved + old(extractor).facts(count).unresolved.map_values(
                    |u: OpenRelation| unresolved_record(u),
                ),
                uses: old(self).found(count).uses + old(extractor).facts(count).unresolved.map_values(
                    |u: OpenRelation| unresolved_use(u, s.rel_path@),
                ),
                diagnostics: old(self).found(count).diagnostics + old(extractor).facts(
                    count,
                ).unresolved.map_values(|u: OpenRelation| unresolved_warning(u, s.path@)),
            }),
    {
        let ghost start = self.found(count);
        let ghost open = extractor.facts(count).unresolved;
        let ghost records = open.map_values(|u: OpenRelation| unresolved_record(u));
        let ghost uses = open.map_values(|u: OpenRelation| unresolved_use(u, s.rel_path@));
        let ghost warnings = open.map_values(|u: OpenRelation| unresolved_warning(u, s.path@));
        let mut i: usize = 0;
        assert(start.unresolved + records.take(0) =~= start.unresolved);
        assert(start.uses + uses.take(0) =~= start.uses);
        assert(start.diagnostics + warnings.take(0) =~= start.diagnostics);
        while i < extractor.unresolved.len()
            invariant
                *extractor == *old(extractor),
                i <= extractor.unresolved@.len(),
                open == extractor.facts(count).unresolved,
                records == open.map_values(|u: OpenRelation| unresolved_record(u)),
                uses == open.map_values(|u: OpenRelation| unresolved_use(u, s.rel_path@)),
                warnings == open.map_values(|u: OpenRelation| unresolved_warning(u, s.path@)),
                self.found(count) == (RelationPass {
                    count,
                    links: start.links,
                    unresolved: start.unresolved + records.take(i as int),
                    uses: start.uses + uses.take(i as int),
                    diagnostics: start.diagnostics + warnings.take(i as int),
                }),
            decreases extractor.unresolved.len() - i,
        {
            let ghost now = self.found(count);
            let u = &extractor.unresolved[i];
            assert(open[i as int] == u@);
            let mut what = u.relation_type.name().to_owned();
            what.append(": ");
            what.append(u.from_fqn.as_str());
            what.append(" → ");
            what.append(u.target_text.as_str());
            report(&mut self.diagnostics, s.path.as_str(), "Unresolved ", what.as_str(), DiagnosticSeverity::Warning);
            let record = UnresolvedRecord {
                relation_type: u.relation_type,
                from_fqn: u.from_fqn.clone(),
                target_text: u.target_text.clone(),
                file: u.witness.file.clone(),
                line: u.witness.start_line,
            };
            let info = UnresolvedInfo {
                target_text: u.target_text.clone(),
                file: s.rel_path.clone(),
                line: u.witness.start_line,
                column: u.witness.start_col,
            };
            let ghost rv = record@;
            let ghost uv = info@;
            self.unresolved.push(record);
            self.uses.push(info);
            i = i + 1;
            assert(self.found(count).unresolved =~= now.unresolved.push(rv));
            assert(self.found(count).uses =~= now.uses.push(uv));
            assert(unresolved_warning(u@, s.path@).message =~= "Unresolved "@ + what@);
            assert(self.found(count).unresolved =~= start.unresolved + records.take(i as int));
            assert(self.found(count).uses =~= start.uses + uses.take(i as int));
            assert(self.found(count).diagnostics =~= start.diagnostics + warnings.take(i as int));
        }
        assert(records.take(i as int) =~= records);
        assert(uses.take(i as int) =~= uses);
        assert(warnings.take(i as int) =~= warnings);
        let ghost a = self.links@;
        let ghost b = extractor.incidences@;
        self.links.append(&mut extractor.incidences);
        assert(self.links@ =~= a + b);
        assert(self.found(count).links =~= start.links + old(extractor).facts(count).links);
    }
}

/// Second pass: the relations of all files. The names come back unchanged.
fn collect_relations(
    sources: &Vec<SourceFile>,
    names: TextMap<String>,
    resolved: TextMap<String>,
    factory: &mut CellFactory,
) -> (r: (Relations, TextMap<String>))
    requires
        paths_given(source_views(sources@)),
    ensures
        r.1 == names,
        r.0.found(final(factory).count()) == relation_pass(
            source_views(sources@),
            Known {
                space: old(factory).space(),
                file: Seq::empty(),
                ids: index_view(names),
                resolved: index_view(resolved),
            },
            old(factory).count(),
            sources@.len() as int,
        ),
{
    let ghost all = source_views(sources@);
    let ghost start = factory.count();
    let ghost k = Known {
        space: factory.space(),
        file: Seq::empty(),
        ids: index_view(names),
        resolved: index_view(resolved),
    };
    let mut names_now = names;
    let mut resolved_now = resolved;
    let mut r = Relations { links: Vec::new(), unresolved: Vec::new(), uses: Vec::new(), diagnostics: Vec::new() };
    let mut i: usize = 0;
    assert(r.found(start) =~= relation_pass(all, k, start, 0));
    while i < sources.len()
        invariant
            paths_given(all),
            all == source_views(sources@),
            names_now == names,
            resolved_now == resolved,
            k == (Known {
                space: factory.space(),
                file: Seq::empty(),
                ids: index_view(names),
                resolved: index_view(resolved),
            }),
            i <= sources@.len(),
            r.found(factory.count()) == relation_pass(all, k, start, i as int),
        decreases sources.len() - i,
    {
        let s = &sources[i];
        assert(all[i as int] == s@);
        let ghost before = relation_pass(all, k, start, i as int);
        match parse_source(s) {
            Ok(tree) => {
                let fresh = RelationExtractor::new(names_now, s.rel_path.as_str());
                assert(fresh.facts(before.count) == no_relations(before.count));
                let mut extractor = fresh.with_resolved_cache(resolved_now);
                assert(extractor.known(k.space) =~= Known { file: s@.rel_path, ..k });
                assert(extractor.facts(before.count) =~= no_relations(before.count));
                extractor.extract(&tree, factory);
                r.add_file(&mut extractor, s, Ghost(factory.count()));
                names_now = extractor.fqn_to_cell_id;
                resolved_now = extractor.resolved_cache;
            },
            Err(e) => {
                report(
                    &mut r.diagnostics,
                    s.path.as_str(),
                    "Relation extraction error: ",
                    e.as_str(),
                    DiagnosticSeverity::Error,
                );
            },
        }
        i = i + 1;
    }
    (r, names_now)
}

fn ids_of_cells(cells: &Vec<Cell>) -> (r: Vec<String>)
    ensures
        texts(r@) == cell_views(cells@).map_values(|c: CellView| c.id),
{
    let mut r: Vec<String> = Vec::new();
    let mut i: usize = 0;
    while i < cells.len()
        invariant
            i <= cells@.len(),
            r@.len() == i,
            forall|k: int| 0 <= k < i ==> (#[trigger] r@[k])@ == cells@[k].id@,
        decreases cells.len() - i,
    {
        r.push(cells[i].id.clone());
        i = i + 1;
    }
    assert(texts(r@) =~= cell_views(cells@).map_values(|c: CellView| c.id));
    r
}

fn ids_of_links(links: &Vec<Incidence>) -> (r: Vec<String>)
    ensures
        texts(r@) == links@.map_values(|i: Incidence| i@).map_values(|l: LinkView| l.id),
{
    let mut r: Vec<String> = Vec::new();
    let mut i: usize = 0;
    while i < links.len()
        invariant
            i <= links@.len(),
            r@.len() == i,
            forall|k: int| 0 <= k < i ==> (#[trigger] r@[k])@ == links@[k].id@,
        decreases links.len() - i,
    {
        r.push(links[i].id.clone());
        i = i + 1;
    }
    assert(texts(r@) =~= links@.map_values(|i: Incidence| i@).map_values(|l: LinkView| l.id));
    r
}

pub struct JavaLifter;

impl JavaLifter {
    pub fn new() -> (r: Result<Self, String>)
        ensures
            r is Ok,
    {
        Ok(JavaLifter)
    }

    /// Lifts files into a space. It fails when the space has no proper
    /// identifier; files that cannot be read or parsed are reported.
    pub fn lift(&mut self, config: &LiftConfig, sources: &Vec<SourceFile>) -> (r: Result<LiftResult, String>)
        requires
            paths_given(source_views(sources@)),
        ensures
            lift_result(r) == if valid_id(config.space_id@) {
                Ok(
                    lifted(
                        source_views(sources@),
                        trimmed(config.space_id@),
                        config.space_label@,
                        index_view(config.resolved_cache),
                    ),
                )
            } else {
                Err(id_error(config.space_id@))
            },
            r matches Ok(x) ==> x.space_data.stored() == store_of(x.space_data@),
    {
        let space_id = match new_id(config.space_id.as_str()) {
            Ok(id) => id,
            Err(e) => {
                return Err(e);
            },
        };
        let ghost all = source_views(sources@);
        let ghost n = sources@.len() as int;
        let ghost id = space_id@;
        let mut factory = CellFactory::new(space_id);
        let mut space = factory.create_space(config.space_label.as_str());
        let mut diagnostics: Vec<LiftDiagnostic> = Vec::new();
        let extractors = collect_entities(sources, &mut factory, &mut diagnostics);
        let ghost first = entity_pass(all, id, n);
        let names = merge_names(&extractors, Ghost(first.facts));
        let cells = merge_cells(&extractors, Ghost(first.facts));
        let entities = merge_records(&extractors, Ghost(first.facts));
        let resolved = copy_entries(&config.resolved_cache);
        let ghost k = known_after(first, id, index_view(config.resolved_cache));
        let (relations, names) = collect_relations(sources, names, resolved, &mut factory);
        let Relations { links, unresolved, uses: _, diagnostics: mut more } = relations;
        let ghost a = diagnostics@;
        let ghost b = more@;
        diagnostics.append(&mut more);
        assert(diagnostics@ =~= a + b);
        assert(diagnostic_views(diagnostics@) =~= diagnostic_views(a) + diagnostic_views(b));
        let none: Vec<RelationRecord> = Vec::new();
        assert(none@.map_values(|r: RelationRecord| r@) =~= Seq::empty());
        space.cell_ids = ids_of_cells(&cells);
        space.incidence_ids = ids_of_links(&links);
        let mut space_data = SpaceData::new(space, cells, links, entities, none, names);
        space_data.unresolved = unresolved;
        space_data.rebuild_store();
        assert(space_data@ =~= lifted(all, id, config.space_label@, index_view(config.resolved_cache)).space);
        Ok(LiftResult { space_data, diagnostics })
    }

    /// The names that are used in files and not declared there.
    pub fn collect_unresolved(&mut self, config: &LiftConfig, sources: &Vec<SourceFile>) -> (r: Result<
        Vec<UnresolvedInfo>,
        String,
    >)
        requires
            paths_given(source_views(sources@)),
        ensures
            match r {
                Ok(v) => valid_id(config.space_id@) && v@.map_values(|u: UnresolvedInfo| u@) == unresolved_uses(
                    source_views(sources@),
                    trimmed(config.space_id@),
                ),
                Err(e) => !valid_id(config.space_id@) && e@ == id_error(config.space_id@),
            },
    {
        let space_id = match new_id(config.space_id.as_str()) {
            Ok(id) => id,
            Err(e) => {
                return Err(e);
            },
        };
        let ghost all = source_views(sources@);
        let ghost n = sources@.len() as int;
        let ghost id = space_id@;
        let mut factory = CellFactory::new(space_id);
        let mut diagnostics: Vec<LiftDiagnostic> = Vec::new();
        let extractors = collect_entities(sources, &mut factory, &mut diagnostics);
        let ghost first = entity_pass(all, id, n);
        let names = merge_names(&extractors, Ghost(first.facts));
        let none: TextMap<String> = TextMap::new();
        assert(index_view(none) =~= Seq::empty());
        let (relations, _) = collect_relations(sources, names, none, &mut factory);
        assert(relations.found(factory.count()) == relation_pass(
            all,
            known_after(first, id, Seq::empty()),
            first.count,
            n,
        ));
        let Relations { links: _, unresolved: _, uses, diagnostics: _ } = relations;
        Ok(uses)
    }
}

} // verus!
