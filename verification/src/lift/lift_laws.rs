//! What holds of every lifted space.

use vstd::prelude::*;

use crate::lift::entity_extractor::{
    declared_kind, entities_in, entities_in_bodies, fqn_in, is_type_body, types_of, with_callable, with_constant,
    with_entity, with_fields, with_package, witness_of, EntityExtractor, EntityFacts, Origin,
};
use crate::lift::lifter::{
    all_cells, all_names, all_records, entity_pass, known_after, lifted, no_relations, parsed, paths_given, records_of,
    relation_pass, with_entries, SourceView,
};
use crate::lift::relation_extractor::{
    body_kind, call_targets, callable_fqn, container_of, first_known, is_type_name, related, relations_in,
    relations_in_bodies, type_targets, with_annotations, with_body, with_call, with_clauses, with_construction,
    with_container, with_first_type, with_import, with_method, with_type, with_type_head, with_types, Known,
    RelationFacts,
};
use crate::lift::syntax::{child_in_role, node_end, text_in_role, NodeView};
use crate::lines::{lemma_trimmed_shorter, trimmed};
use crate::model::entity::JavaEntityType;
use crate::model::graph::{CellView, LinkView};
use crate::model::relation::JavaRelationType;
use crate::model::witness::WitnessView;
use crate::text::decimal_text;
use crate::text_map::{key_position, lemma_key_position, lemma_other_key, lemma_with_entry, lookup, with_entry};

verus! {

/// A cell of the space that says where it comes from.
pub open spec fn is_witnessed(c: CellView, space: Seq<char>) -> bool {
    (c.provenance matches Some(p) && p.uri is Some) && c.label is Some && c.space_id == space
}

/// A cell has the identifier.
pub open spec fn has_cell(cells: Seq<CellView>, id: Seq<char>) -> bool {
    exists|i: int| 0 <= i < cells.len() && (#[trigger] cells[i]).id == id
}

/// All cells are witnessed, and every name leads to one of them.
pub open spec fn cells_sound(cells: Seq<CellView>, ids: Seq<(Seq<char>, Seq<char>)>, space: Seq<char>) -> bool {
    &&& forall|i: int| 0 <= i < cells.len() ==> is_witnessed(#[trigger] cells[i], space)
    &&& forall|k: int| 0 <= k < ids.len() ==> has_cell(cells, (#[trigger] ids[k]).1)
}

/// Every name has a place in a file.
pub open spec fn names_placed(f: EntityFacts) -> bool {
    forall|k: int| 0 <= k < f.ids.len() ==> is_placed(f.witnesses, (#[trigger] f.ids[k]).0)
}

pub open spec fn is_placed(witnesses: Seq<(Seq<char>, WitnessView)>, name: Seq<char>) -> bool {
    lookup(witnesses, name) matches Some(w) && w.file.len() > 0
}

/// What is found in a file is witnessed, and placed where the file has a name.
pub open spec fn facts_sound(f: EntityFacts, from: Origin) -> bool {
    cells_sound(f.cells, f.ids, from.space) && (from.file.len() > 0 ==> names_placed(f))
}

/// What a key leads to after another entry.
proof fn lemma_entry_kept(map: Seq<(Seq<char>, WitnessView)>, key: Seq<char>, value: WitnessView, name: Seq<char>)
    ensures
        lookup(with_entry(map, key, value), name) == if name == key {
            Some(value)
        } else {
            lookup(map, name)
        },
{
    if name == key {
        lemma_with_entry(map, key, value);
    } else {
        lemma_other_key(map, key, value, name);
    }
}

proof fn lemma_with_entity(
    f: EntityFacts,
    from: Origin,
    entity_type: JavaEntityType,
    fqn: Seq<char>,
    label: Seq<char>,
    witness: WitnessView,
)
    requires
        facts_sound(f, from),
        witness.file == from.file,
    ensures
        facts_sound(with_entity(f, from, entity_type, fqn, label, witness), from),
{
    let after = with_entity(f, from, entity_type, fqn, label, witness);
    lemma_key_position(f.ids, fqn);
    if from.file.len() > 0 {
        assert forall|k: int| 0 <= k < after.ids.len() implies is_placed(after.witnesses, (#[trigger] after.ids[k]).0) by {
            let name = after.ids[k].0;
            lemma_entry_kept(f.witnesses, fqn, witness, name);
            if name != fqn {
                assert(k < f.ids.len() && f.ids[k].0 == name);
            }
        }
    }
    let n = f.cells.len() as int;
    assert forall|i: int| 0 <= i < after.cells.len() implies is_witnessed(#[trigger] after.cells[i], from.space) by {
        if i < n {
            assert(is_witnessed(f.cells[i], from.space));
        }
    }
    assert forall|k: int| 0 <= k < after.ids.len() implies has_cell(after.cells, (#[trigger] after.ids[k]).1) by {
        if after.ids[k].1 == after.cells[n].id {
        } else {
            assert(k < f.ids.len() && after.ids[k] == f.ids[k]);
            assert(has_cell(f.cells, f.ids[k].1));
            let i = choose|i: int| 0 <= i < f.cells.len() && (#[trigger] f.cells[i]).id == f.ids[k].1;
            assert(after.cells[i].id == after.ids[k].1);
        }
    }
}

proof fn lemma_with_package(t: Seq<NodeView>, at: int, lo: int, hi: int, f: EntityFacts, from: Origin)
    requires
        facts_sound(f, from),
    ensures
        facts_sound(with_package(t, at, lo, hi, f, from), from),
    decreases hi - lo,
{
    if lo < hi {
        if t[lo].kind == "scoped_identifier"@ || t[lo].kind == "identifier"@ {
            lemma_with_entity(
                f,
                from,
                JavaEntityType::Package,
                t[lo].text,
                t[lo].text,
                witness_of(t[at], from.file),
            );
        } else {
            lemma_with_package(t, at, node_end(t, lo, hi), hi, f, from);
        }
    }
}

proof fn lemma_with_fields(
    t: Seq<NodeView>,
    at: int,
    lo: int,
    hi: int,
    classes: Seq<Seq<char>>,
    f: EntityFacts,
    from: Origin,
)
    requires
        facts_sound(f, from),
    ensures
        facts_sound(with_fields(t, at, lo, hi, classes, f, from), from),
    decreases hi - lo,
{
    if lo < hi {
        let end = node_end(t, lo, hi);
        match child_in_role(t, lo, end, "name"@) {
            Some((a, _)) => {
                let fqn = fqn_in(f.package, classes, t[a].text);
                let witness = witness_of(t[at], from.file);
                lemma_with_entity(f, from, JavaEntityType::Field, fqn, t[a].text, witness);
                if t[lo].kind == "variable_declarator"@ {
                    let after = with_entity(f, from, JavaEntityType::Field, fqn, t[a].text, witness);
                    lemma_with_fields(t, at, end, hi, classes, after, from);
                } else {
                    lemma_with_fields(t, at, end, hi, classes, f, from);
                }
            },
            None => {
                lemma_with_fields(t, at, end, hi, classes, f, from);
            },
        }
    }
}

proof fn lemma_members(
    t: Seq<NodeView>,
    lo: int,
    hi: int,
    classes: Seq<Seq<char>>,
    f: EntityFacts,
    from: Origin,
    is_constructor: bool,
)
    requires
        facts_sound(f, from),
    ensures
        facts_sound(with_callable(t, lo, hi, classes, f, from, is_constructor), from),
        facts_sound(with_constant(t, lo, hi, classes, f, from), from),
{
    let name = text_in_role(t, lo, hi, "name"@);
    let types = types_of(t, lo, hi);
    let label = name + "("@ + crate::text::joined(types, ", "@) + ")"@;
    let witness = witness_of(t[lo], from.file);
    lemma_with_entity(
        f,
        from,
        JavaEntityType::Constructor,
        fqn_in(f.package, classes, "<init>_"@ + decimal_text(types.len())),
        label,
        witness,
    );
    lemma_with_entity(f, from, JavaEntityType::Method, fqn_in(f.package, classes, name), label, witness);
    if let Some((a, _)) = child_in_role(t, lo, hi, "name"@) {
        lemma_with_entity(
            f,
            from,
            JavaEntityType::EnumConstant,
            fqn_in(f.package, classes, t[a].text),
            t[a].text,
            witness,
        );
    }
}

proof fn lemma_entities_in(
    t: Seq<NodeView>,
    lo: int,
    hi: int,
    classes: Seq<Seq<char>>,
    f: EntityFacts,
    from: Origin,
)
    requires
        facts_sound(f, from),
    ensures
        facts_sound(entities_in(t, lo, hi, classes, f, from), from),
    decreases hi - lo, 0nat,
{
    if lo < hi {
        let end = node_end(t, lo, hi);
        let name = text_in_role(t, lo, end, "name"@);
        lemma_members(t, lo, end, classes, f, from, false);
        lemma_members(t, lo, end, classes, f, from, true);
        lemma_with_package(t, lo, lo + 1, end, f, from);
        lemma_with_fields(t, lo, lo + 1, end, classes, f, from);
        lemma_entities_in(t, lo + 1, end, classes, f, from);
        let declared = with_entity(
            f,
            from,
            declared_kind(t[lo])->0,
            fqn_in(f.package, classes, name),
            name,
            witness_of(t[lo], from.file),
        );
        lemma_with_entity(
            f,
            from,
            declared_kind(t[lo])->0,
            fqn_in(f.package, classes, name),
            name,
            witness_of(t[lo], from.file),
        );
        lemma_entities_in_bodies(t, lo + 1, end, classes.push(name), declared, from);
        let after = if t[lo].kind == "package_declaration"@ {
            with_package(t, lo, lo + 1, end, f, from)
        } else if declared_kind(t[lo]) is Some {
            if name.len() == 0 {
                f
            } else {
                entities_in_bodies(t, lo + 1, end, classes.push(name), declared, from)
            }
        } else if t[lo].kind == "method_declaration"@ {
            with_callable(t, lo, end, classes, f, from, false)
        } else if t[lo].kind == "constructor_declaration"@ {
            with_callable(t, lo, end, classes, f, from, true)
        } else if t[lo].kind == "field_declaration"@ {
            with_fields(t, lo, lo + 1, end, classes, f, from)
        } else if t[lo].kind == "enum_constant"@ {
            with_constant(t, lo, end, classes, f, from)
        } else {
            entities_in(t, lo + 1, end, classes, f, from)
        };
        lemma_entities_in(t, end, hi, classes, after, from);
    }
}

proof fn lemma_entities_in_bodies(
    t: Seq<NodeView>,
    lo: int,
    hi: int,
    classes: Seq<Seq<char>>,
    f: EntityFacts,
    from: Origin,
)
    requires
        facts_sound(f, from),
    ensures
        facts_sound(entities_in_bodies(t, lo, hi, classes, f, from), from),
    decreases hi - lo, 1nat,
{
    if lo < hi {
        let end = node_end(t, lo, hi);
        if is_type_body(t[lo]) {
            lemma_entities_in(t, lo + 1, end, classes, f, from);
            lemma_entities_in_bodies(t, end, hi, classes, entities_in(t, lo + 1, end, classes, f, from), from);
        } else {
            lemma_entities_in_bodies(t, end, hi, classes, f, from);
        }
    }
}

/// The facts of a file are sound; its names are placed if they are to be.
pub open spec fn found_well(f: EntityFacts, space: Seq<char>, placed: bool) -> bool {
    cells_sound(f.cells, f.ids, space) && (placed ==> names_placed(f))
}

proof fn lemma_entity_pass(sources: Seq<SourceView>, space: Seq<char>, n: int)
    requires
        0 <= n <= sources.len(),
    ensures
        forall|i: int|
            0 <= i < entity_pass(sources, space, n).facts.len() ==> found_well(
                #[trigger] entity_pass(sources, space, n).facts[i],
                space,
                paths_given(sources),
            ),
    decreases n,
{
    if n > 0 {
        lemma_entity_pass(sources, space, n - 1);
        let before = entity_pass(sources, space, n - 1);
        let s = sources[n - 1];
        if let Ok(t) = parsed(s) {
            let from = Origin { space, file: s.rel_path };
            lemma_entities_in(
                t,
                0,
                t.len() as int,
                Seq::empty(),
                EntityExtractor::empty_facts(before.count),
                from,
            );
            let after = entity_pass(sources, space, n).facts;
            if paths_given(sources) {
                assert(trimmed(sources[n - 1].rel_path).len() > 0);
                lemma_trimmed_shorter(s.rel_path);
            }
            assert forall|i: int| 0 <= i < after.len() implies found_well(
                #[trigger] after[i],
                space,
                paths_given(sources),
            ) by {
                if i < before.facts.len() {
                    assert(found_well(before.facts[i], space, paths_given(sources)));
                }
            }
        }
    }
}

proof fn lemma_with_entries(
    cells: Seq<CellView>,
    map: Seq<(Seq<char>, Seq<char>)>,
    more: Seq<(Seq<char>, Seq<char>)>,
    n: int,
)
    requires
        0 <= n <= more.len(),
        forall|k: int| 0 <= k < map.len() ==> has_cell(cells, (#[trigger] map[k]).1),
        forall|k: int| 0 <= k < more.len() ==> has_cell(cells, (#[trigger] more[k]).1),
    ensures
        forall|k: int|
            0 <= k < with_entries(map, more, n).len() ==> has_cell(cells, (#[trigger] with_entries(map, more, n)[k]).1),
    decreases n,
{
    if n > 0 {
        lemma_with_entries(cells, map, more, n - 1);
        let before = with_entries(map, more, n - 1);
        let (key, id) = more[n - 1];
        lemma_key_position(before, key);
        let after = with_entries(map, more, n);
        assert(has_cell(cells, more[n - 1].1));
        assert forall|k: int| 0 <= k < after.len() implies has_cell(cells, (#[trigger] after[k]).1) by {
            if after[k].1 != id {
                assert(after[k] == before[k]);
            }
        }
    }
}

/// All cells of the first `n` files are witnessed, and every name leads to one.
proof fn lemma_all(facts: Seq<EntityFacts>, space: Seq<char>, n: int)
    requires
        0 <= n <= facts.len(),
        forall|i: int| 0 <= i < facts.len() ==> found_well(#[trigger] facts[i], space, false),
    ensures
        cells_sound(all_cells(facts, n), all_names(facts, n), space),
    decreases n,
{
    if n > 0 {
        lemma_all(facts, space, n - 1);
        let f = facts[n - 1];
        assert(found_well(facts[n - 1], space, false));
        let before = all_cells(facts, n - 1);
        let cells = all_cells(facts, n);
        assert(cells =~= before + f.cells);
        assert forall|i: int| 0 <= i < cells.len() implies is_witnessed(#[trigger] cells[i], space) by {
            if i < before.len() {
                assert(is_witnessed(before[i], space));
            } else {
                assert(is_witnessed(f.cells[i - before.len()], space));
            }
        }
        let names = all_names(facts, n - 1);
        assert forall|k: int| 0 <= k < names.len() implies has_cell(cells, (#[trigger] names[k]).1) by {
            assert(has_cell(before, names[k].1));
            let i = choose|i: int| 0 <= i < before.len() && (#[trigger] before[i]).id == names[k].1;
            assert(cells[i].id == names[k].1);
        }
        assert forall|k: int| 0 <= k < f.ids.len() implies has_cell(cells, (#[trigger] f.ids[k]).1) by {
            assert(has_cell(f.cells, f.ids[k].1));
            let i = choose|i: int| 0 <= i < f.cells.len() && (#[trigger] f.cells[i]).id == f.ids[k].1;
            assert(cells[before.len() + i].id == f.ids[k].1);
        }
        lemma_with_entries(cells, names, f.ids, f.ids.len() as int);
    }
}

/// Every lifted cell belongs to the space, has a label and says where it comes
/// from; every name leads to a lifted cell.
pub proof fn law_cells_are_witnessed(
    sources: Seq<SourceView>,
    space: Seq<char>,
    label: Seq<char>,
    resolved: Seq<(Seq<char>, Seq<char>)>,
)
    ensures
        cells_sound(
            lifted(sources, space, label, resolved).space.cells,
            lifted(sources, space, label, resolved).space.index,
            space,
        ),
{
    let first = entity_pass(sources, space, sources.len() as int);
    lemma_entity_pass(sources, space, sources.len() as int);
    assert forall|i: int| 0 <= i < first.facts.len() implies found_well(#[trigger] first.facts[i], space, false) by {
        assert(found_well(first.facts[i], space, paths_given(sources)));
    }
    lemma_all(first.facts, space, first.facts.len() as int);
}

proof fn lemma_records_of(f: EntityFacts, n: int)
    requires
        names_placed(f),
        0 <= n <= f.ids.len(),
    ensures
        forall|i: int| 0 <= i < records_of(f, n).len() ==> (#[trigger] records_of(f, n)[i]).witness.file.len() > 0,
    decreases n,
{
    if n > 0 {
        lemma_records_of(f, n - 1);
        assert(is_placed(f.witnesses, f.ids[n - 1].0));
    }
}

proof fn lemma_all_records(facts: Seq<EntityFacts>, space: Seq<char>, n: int)
    requires
        0 <= n <= facts.len(),
        forall|i: int| 0 <= i < facts.len() ==> found_well(#[trigger] facts[i], space, true),
    ensures
        forall|i: int| 0 <= i < all_records(facts, n).len() ==> (#[trigger] all_records(facts, n)[i]).witness.file.len() > 0,
    decreases n,
{
    if n > 0 {
        lemma_all_records(facts, space, n - 1);
        assert(found_well(facts[n - 1], space, true));
        lemma_records_of(facts[n - 1], facts[n - 1].ids.len() as int);
    }
}

/// Every lifted entity names the file that it was found in.
pub proof fn law_entities_are_placed(
    sources: Seq<SourceView>,
    space: Seq<char>,
    label: Seq<char>,
    resolved: Seq<(Seq<char>, Seq<char>)>,
    i: int,
)
    requires
        paths_given(sources),
        0 <= i < lifted(sources, space, label, resolved).space.entities.len(),
    ensures
        lifted(sources, space, label, resolved).space.entities[i].witness.file.len() > 0,
{
    let first = entity_pass(sources, space, sources.len() as int);
    lemma_entity_pass(sources, space, sources.len() as int);
    lemma_all_records(first.facts, space, first.facts.len() as int);
}

/// A name has the identifier.
pub open spec fn is_known(ids: Seq<(Seq<char>, Seq<char>)>, id: Seq<char>) -> bool {
    exists|k: int| 0 <= k < ids.len() && (#[trigger] ids[k]).1 == id
}

/// A relation of the space between known cells, which says where it comes from.
pub open spec fn joins_known(l: LinkView, k: Known) -> bool {
    is_known(k.ids, l.from) && is_known(k.ids, l.to) && l.space_id == k.space && l.provenance is Some
}

pub open spec fn links_sound(f: RelationFacts, k: Known) -> bool {
    forall|i: int| 0 <= i < f.links.len() ==> joins_known(#[trigger] f.links[i], k)
}

proof fn lemma_lookup_known(ids: Seq<(Seq<char>, Seq<char>)>, name: Seq<char>)
    ensures
        lookup(ids, name) matches Some(id) ==> is_known(ids, id),
{
    lemma_key_position(ids, name);
    if let Some(i) = key_position(ids, name) {
        assert(ids[i].1 == lookup(ids, name)->0);
    }
}

proof fn lemma_first_known(ids: Seq<(Seq<char>, Seq<char>)>, names: Seq<Seq<char>>, i: int)
    ensures
        first_known(ids, names, i) matches Some(id) ==> is_known(ids, id),
    decreases names.len() - i,
{
    if i < names.len() {
        lemma_lookup_known(ids, names[i]);
        lemma_first_known(ids, names, i + 1);
    }
}

proof fn lemma_related(
    f: RelationFacts,
    k: Known,
    relation: JavaRelationType,
    from: Seq<char>,
    to: Seq<char>,
    witness: WitnessView,
)
    requires
        links_sound(f, k),
        is_known(k.ids, from),
        is_known(k.ids, to),
    ensures
        links_sound(related(f, k, relation, from, to, witness), k),
{
    let after = related(f, k, relation, from, to, witness);
    assert forall|i: int| 0 <= i < after.links.len() implies joins_known(#[trigger] after.links[i], k) by {
        if i < f.links.len() {
            assert(joins_known(f.links[i], k));
        }
    }
}

proof fn lemma_with_type(
    t: Seq<NodeView>,
    at: int,
    name: Seq<char>,
    f: RelationFacts,
    k: Known,
    from: Seq<char>,
    relation: JavaRelationType,
)
    requires
        links_sound(f, k),
        is_known(k.ids, from),
    ensures
        links_sound(with_type(t, at, name, f, k, from, relation), k),
{
    let (names, source) = type_targets(f.package, k, name);
    lemma_first_known(k.ids, names, 0);
    if let Some(to) = first_known(k.ids, names, 0) {
        lemma_related(
            f,
            k,
            relation,
            from,
            to,
            crate::lift::relation_extractor::derived(witness_of(t[at], k.file), source),
        );
    }
}

proof fn lemma_with_first_type(
    t: Seq<NodeView>,
    lo: int,
    hi: int,
    f: RelationFacts,
    k: Known,
    from: Seq<char>,
    relation: JavaRelationType,
)
    requires
        links_sound(f, k),
        is_known(k.ids, from),
    ensures
        links_sound(with_first_type(t, lo, hi, f, k, from, relation), k),
    decreases hi - lo,
{
    if lo < hi {
        lemma_with_type(t, lo, t[lo].text, f, k, from, relation);
        lemma_with_first_type(t, node_end(t, lo, hi), hi, f, k, from, relation);
    }
}

proof fn lemma_with_types(
    t: Seq<NodeView>,
    lo: int,
    hi: int,
    f: RelationFacts,
    k: Known,
    from: Seq<char>,
    relation: JavaRelationType,
)
    requires
        links_sound(f, k),
        is_known(k.ids, from),
    ensures
        links_sound(with_types(t, lo, hi, f, k, from, relation), k),
    decreases hi - lo,
{
    if lo < hi {
        let end = node_end(t, lo, hi);
        lemma_with_type(t, lo, t[lo].text, f, k, from, relation);
        lemma_with_types(t, lo + 1, end, f, k, from, relation);
        let after = if is_type_name(t[lo]) {
            with_type(t, lo, t[lo].text, f, k, from, relation)
        } else if t[lo].kind == "type_list"@ {
            with_types(t, lo + 1, end, f, k, from, relation)
        } else {
            f
        };
        lemma_with_types(t, end, hi, after, k, from, relation);
    }
}

proof fn lemma_with_clauses(
    t: Seq<NodeView>,
    lo: int,
    hi: int,
    kind: Seq<char>,
    f: RelationFacts,
    k: Known,
    from: Seq<char>,
    relation: JavaRelationType,
)
    requires
        links_sound(f, k),
        is_known(k.ids, from),
    ensures
        links_sound(with_clauses(t, lo, hi, kind, f, k, from, relation), k),
    decreases hi - lo,
{
    if lo < hi {
        let end = node_end(t, lo, hi);
        lemma_with_types(t, lo + 1, end, f, k, from, relation);
        let after = if t[lo].kind == kind {
            with_types(t, lo + 1, end, f, k, from, relation)
        } else {
            f
        };
        lemma_with_clauses(t, end, hi, kind, after, k, from, relation);
    }
}

proof fn lemma_with_annotations(t: Seq<NodeView>, lo: int, hi: int, f: RelationFacts, k: Known, from: Seq<char>)
    requires
        links_sound(f, k),
        is_known(k.ids, from),
    ensures
        links_sound(with_annotations(t, lo, hi, f, k, from), k),
    decreases hi - lo,
{
    if lo < hi {
        let end = node_end(t, lo, hi);
        let after = match child_in_role(t, lo, end, "name"@) {
            Some((a, _)) => if t[lo].kind == "marker_annotation"@ || t[lo].kind == "annotation"@ {
                with_type(t, lo, t[a].text, f, k, from, JavaRelationType::AnnotatedWith)
            } else {
                f
            },
            None => f,
        };
        if let Some((a, _)) = child_in_role(t, lo, end, "name"@) {
            lemma_with_type(t, lo, t[a].text, f, k, from, JavaRelationType::AnnotatedWith);
        }
        lemma_with_annotations(t, end, hi, after, k, from);
    }
}

proof fn lemma_with_container(
    t: Seq<NodeView>,
    lo: int,
    container: Option<Seq<char>>,
    f: RelationFacts,
    k: Known,
    from: Seq<char>,
)
    requires
        links_sound(f, k),
        is_known(k.ids, from),
    ensures
        links_sound(with_container(t, lo, container, f, k, from), k),
{
    if let Some(name) = container {
        lemma_lookup_known(k.ids, name);
        if let Some(to) = lookup(k.ids, name) {
            lemma_related(f, k, JavaRelationType::ContainedIn, from, to, witness_of(t[lo], k.file));
        }
    }
}

proof fn lemma_with_type_head(
    t: Seq<NodeView>,
    lo: int,
    hi: int,
    classes: Seq<Seq<char>>,
    f: RelationFacts,
    k: Known,
)
    requires
        links_sound(f, k),
    ensures
        links_sound(with_type_head(t, lo, hi, classes, f, k), k),
{
    let fqn = fqn_in(f.package, classes, text_in_role(t, lo, hi, "name"@));
    lemma_lookup_known(k.ids, fqn);
    if let Some(from) = lookup(k.ids, fqn) {
        let f1 = with_container(t, lo, container_of(f.package, classes), f, k, from);
        lemma_with_container(t, lo, container_of(f.package, classes), f, k, from);
        lemma_with_clauses(t, lo + 1, hi, "extends_interfaces"@, f1, k, from, JavaRelationType::Extends);
        let extended = match child_in_role(t, lo, hi, "superclass"@) {
            Some((a, b)) => with_first_type(t, a + 1, b, f1, k, from, JavaRelationType::Extends),
            None => f1,
        };
        if let Some((a, b)) = child_in_role(t, lo, hi, "superclass"@) {
            lemma_with_first_type(t, a + 1, b, f1, k, from, JavaRelationType::Extends);
        }
        if let Some((a, b)) = child_in_role(t, lo, hi, "interfaces"@) {
            lemma_with_types(t, a + 1, b, extended, k, from, JavaRelationType::Implements);
        }
        let f2 = if t[lo].kind == "interface_declaration"@ {
            with_clauses(t, lo + 1, hi, "extends_interfaces"@, f1, k, from, JavaRelationType::Extends)
        } else {
            match child_in_role(t, lo, hi, "interfaces"@) {
                Some((a, b)) => with_types(t, a + 1, b, extended, k, from, JavaRelationType::Implements),
                None => extended,
            }
        };
        lemma_with_annotations(t, lo + 1, hi, f2, k, from);
    }
}

proof fn lemma_with_body(
    t: Seq<NodeView>,
    lo: int,
    hi: int,
    caller: Seq<char>,
    classes: Seq<Seq<char>>,
    f: RelationFacts,
    k: Known,
)
    requires
        links_sound(f, k),
    ensures
        links_sound(with_body(t, lo, hi, caller, classes, f, k), k),
    decreases hi - lo,
{
    if lo < hi {
        let end = node_end(t, lo, hi);
        lemma_lookup_known(k.ids, caller);
        let name = text_in_role(t, lo, end, "name"@);
        let object = match child_in_role(t, lo, end, "object"@) {
            Some((a, _)) => Some(t[a].text),
            None => None,
        };
        let (names, source) = call_targets(f.package, classes, k, name, object);
        lemma_first_known(k.ids, names, 0);
        let (types, type_source) = type_targets(f.package, k, text_in_role(t, lo, end, "type"@));
        lemma_first_known(k.ids, types, 0);
        if let Some(from) = lookup(k.ids, caller) {
            let place = witness_of(t[lo], k.file);
            if let Some(to) = first_known(k.ids, names, 0) {
                lemma_related(
                    f,
                    k,
                    JavaRelationType::Calls,
                    from,
                    to,
                    crate::lift::relation_extractor::derived(place, source),
                );
            }
            if let Some(to) = first_known(k.ids, types, 0) {
                lemma_related(
                    f,
                    k,
                    JavaRelationType::Constructs,
                    from,
                    to,
                    crate::lift::relation_extractor::derived(place, type_source),
                );
            }
        }
        assert(links_sound(with_call(t, lo, end, caller, classes, f, k), k));
        assert(links_sound(with_construction(t, lo, end, caller, f, k), k));
        let after = if t[lo].kind == "method_invocation"@ {
            with_call(t, lo, end, caller, classes, f, k)
        } else if t[lo].kind == "object_creation_expression"@ {
            with_construction(t, lo, end, caller, f, k)
        } else {
            f
        };
        lemma_with_body(t, lo + 1, hi, caller, classes, after, k);
    }
}

proof fn lemma_with_method(
    t: Seq<NodeView>,
    lo: int,
    hi: int,
    classes: Seq<Seq<char>>,
    f: RelationFacts,
    k: Known,
)
    requires
        links_sound(f, k),
    ensures
        links_sound(with_method(t, lo, hi, classes, f, k), k),
{
    let fqn = callable_fqn(t, lo, hi, f.package, classes);
    lemma_lookup_known(k.ids, fqn);
    let head = match lookup(k.ids, fqn) {
        Some(from) => {
            let container = Some(crate::lift::decision_extractor::enclosing(f.package, classes));
            let f1 = with_container(t, lo, container, f, k, from);
            let f2 = with_clauses(t, lo + 1, hi, "throws"@, f1, k, from, JavaRelationType::Throws);
            lemma_with_container(t, lo, container, f, k, from);
            lemma_with_clauses(t, lo + 1, hi, "throws"@, f1, k, from, JavaRelationType::Throws);
            lemma_with_annotations(t, lo + 1, hi, f2, k, from);
            with_annotations(t, lo + 1, hi, f2, k, from)
        },
        None => f,
    };
    if let Some((a, b)) = child_in_role(t, lo, hi, "body"@) {
        lemma_with_body(t, a, b, fqn, classes, head, k);
    }
}

proof fn lemma_with_import(t: Seq<NodeView>, lo: int, classes: Seq<Seq<char>>, f: RelationFacts, k: Known)
    requires
        links_sound(f, k),
    ensures
        links_sound(with_import(t, lo, classes, f, k), k),
{
    let target = crate::lift::relation_extractor::imported(t[lo].text);
    let class = crate::lift::decision_extractor::enclosing(f.package, classes);
    lemma_lookup_known(k.ids, class);
    lemma_lookup_known(k.ids, target);
    if let (Some(from), Some(to)) = (lookup(k.ids, class), lookup(k.ids, target)) {
        lemma_related(f, k, JavaRelationType::Imports, from, to, witness_of(t[lo], k.file));
    }
}

proof fn lemma_relations_in(
    t: Seq<NodeView>,
    lo: int,
    hi: int,
    classes: Seq<Seq<char>>,
    f: RelationFacts,
    k: Known,
)
    requires
        links_sound(f, k),
    ensures
        links_sound(relations_in(t, lo, hi, classes, f, k), k),
    decreases hi - lo, 0nat,
{
    if lo < hi {
        let end = node_end(t, lo, hi);
        let name = text_in_role(t, lo, end, "name"@);
        let head = with_type_head(t, lo, end, classes, f, k);
        lemma_with_import(t, lo, classes, f, k);
        lemma_with_type_head(t, lo, end, classes, f, k);
        lemma_relations_in_bodies(t, lo + 1, end, body_kind(t[lo])->0, classes.push(name), head, k);
        lemma_with_method(t, lo, end, classes, f, k);
        lemma_relations_in(t, lo + 1, end, classes, f, k);
        let after = if t[lo].kind == "package_declaration"@ {
            RelationFacts { package: crate::lift::relation_extractor::last_name(t, lo + 1, end, f.package), ..f }
        } else if t[lo].kind == "import_declaration"@ {
            with_import(t, lo, classes, f, k)
        } else if body_kind(t[lo]) is Some {
            if name.len() == 0 {
                f
            } else {
                relations_in_bodies(t, lo + 1, end, body_kind(t[lo])->0, classes.push(name), head, k)
            }
        } else if t[lo].kind == "method_declaration"@ || t[lo].kind == "constructor_declaration"@ {
            with_method(t, lo, end, classes, f, k)
        } else {
            relations_in(t, lo + 1, end, classes, f, k)
        };
        assert(links_sound(after, k));
        lemma_relations_in(t, end, hi, classes, after, k);
    }
}

proof fn lemma_relations_in_bodies(
    t: Seq<NodeView>,
    lo: int,
    hi: int,
    kind: Seq<char>,
    classes: Seq<Seq<char>>,
    f: RelationFacts,
    k: Known,
)
    requires
        links_sound(f, k),
    ensures
        links_sound(relations_in_bodies(t, lo, hi, kind, classes, f, k), k),
    decreases hi - lo, 1nat,
{
    if lo < hi {
        let end = node_end(t, lo, hi);
        if t[lo].kind == kind {
            lemma_relations_in(t, lo + 1, end, classes, f, k);
            lemma_relations_in_bodies(
                t,
                end,
                hi,
                kind,
                classes,
                relations_in(t, lo + 1, end, classes, f, k),
                k,
            );
        } else {
            lemma_relations_in_bodies(t, end, hi, kind, classes, f, k);
        }
    }
}

proof fn lemma_relation_pass(sources: Seq<SourceView>, k: Known, start: int, n: int)
    requires
        0 <= n <= sources.len(),
    ensures
        forall|i: int|
            0 <= i < relation_pass(sources, k, start, n).links.len() ==> joins_known(
                #[trigger] relation_pass(sources, k, start, n).links[i],
                k,
            ),
    decreases n,
{
    if n > 0 {
        lemma_relation_pass(sources, k, start, n - 1);
        let before = relation_pass(sources, k, start, n - 1);
        let s = sources[n - 1];
        if let Ok(t) = parsed(s) {
            let own = Known { file: s.rel_path, ..k };
            lemma_relations_in(t, 0, t.len() as int, Seq::empty(), no_relations(before.count), own);
            let f = relations_in(t, 0, t.len() as int, Seq::empty(), no_relations(before.count), own);
            let after = relation_pass(sources, k, start, n).links;
            assert forall|i: int| 0 <= i < after.len() implies joins_known(#[trigger] after[i], k) by {
                if i < before.links.len() {
                    assert(after[i] == before.links[i]);
                } else {
                    assert(after[i] == f.links[i - before.links.len()]);
                    assert(joins_known(f.links[i - before.links.len()], own));
                }
            }
        }
    }
}

/// Every lifted relation joins two lifted cells, belongs to the space and says
/// where it comes from.
pub proof fn law_relations_join_cells(
    sources: Seq<SourceView>,
    space: Seq<char>,
    label: Seq<char>,
    resolved: Seq<(Seq<char>, Seq<char>)>,
    i: int,
)
    requires
        0 <= i < lifted(sources, space, label, resolved).space.links.len(),
    ensures
        has_cell(
            lifted(sources, space, label, resolved).space.cells,
            lifted(sources, space, label, resolved).space.links[i].from,
        ),
        has_cell(
            lifted(sources, space, label, resolved).space.cells,
            lifted(sources, space, label, resolved).space.links[i].to,
        ),
        lifted(sources, space, label, resolved).space.links[i].space_id == space,
        lifted(sources, space, label, resolved).space.links[i].provenance is Some,
{
    let view = lifted(sources, space, label, resolved).space;
    let first = entity_pass(sources, space, sources.len() as int);
    let k = known_after(first, space, resolved);
    lemma_relation_pass(sources, k, first.count, sources.len() as int);
    law_cells_are_witnessed(sources, space, label, resolved);
    let l = view.links[i];
    assert(joins_known(relation_pass(sources, k, first.count, sources.len() as int).links[i], k));
    let a = choose|a: int| 0 <= a < k.ids.len() && (#[trigger] k.ids[a]).1 == l.from;
    let b = choose|b: int| 0 <= b < k.ids.len() && (#[trigger] k.ids[b]).1 == l.to;
    assert(has_cell(view.cells, view.index[a].1));
    assert(has_cell(view.cells, view.index[b].1));
}

} // verus!
