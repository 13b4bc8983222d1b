//! What is said in a source is found as a relation.

use vstd::prelude::*;

use crate::lift::entity_extractor::{fqn_in, witness_of};
use crate::lift::lifter::{
    entity_pass, known_after, lifted, no_relations, parsed, relation_pass, unresolved_record, SourceView,
};
use crate::lift::outcome_laws::{declares_method, declares_type, dotted};
use crate::lift::relation_extractor::{
    body_kind, call_targets, callable_fqn, container_of, derived, first_known, imported, is_type_name, last_name,
    related, relations_in, relations_in_bodies, type_targets, with_annotations, with_body, with_call, with_clauses,
    with_construction, with_container, with_first_type, with_import, with_known_names, with_method, with_type,
    with_type_head, with_types, Known, OpenRelation, RelationFacts,
};
use crate::lift::syntax::{child_in_role, node_end, text_in_role, NodeView};
use crate::lines::{ends, trimmed};
use crate::model::graph::LinkView;
use crate::model::relation::JavaRelationType;
use crate::model::space_data::{SpaceView, UnresolvedView};
use crate::model::witness::WitnessView;
use crate::seqs::{lemma_plus_contains, lemma_push_contains};
use crate::text::{decimal_text, has, lemma_find};
use crate::text_laws::holds;
use crate::text_map::{lemma_key_position, lookup};

verus! {

/// A relation between two cells that was read off a node of a file.
pub open spec fn is_link(
    l: LinkView,
    relation: Seq<char>,
    from: Seq<char>,
    to: Seq<char>,
    n: NodeView,
    file: Seq<char>,
) -> bool {
    &&& l.relation == relation
    &&& l.from == from
    &&& l.to == to
    &&& l.provenance matches Some(p) && p.title == Some(trimmed(file)) && p.uri == Some(
        trimmed(
            file + "#L"@ + decimal_text(((n.start_row + 1) as u32) as nat) + "-L"@ + decimal_text(
                ((n.end_row + 1) as u32) as nat,
            ),
        ),
    )
}

/// The relation is among those found.
pub open spec fn is_linked(
    links: Seq<LinkView>,
    relation: Seq<char>,
    from: Seq<char>,
    to: Seq<char>,
    n: NodeView,
    file: Seq<char>,
) -> bool {
    exists|l: LinkView| #[trigger] links.contains(l) && is_link(l, relation, from, to, n, file)
}

/// The use of a name that is not known is among those found.
pub open spec fn is_open(
    open: Seq<OpenRelation>,
    relation: JavaRelationType,
    from: Seq<char>,
    text: Seq<char>,
) -> bool {
    exists|u: OpenRelation| #[trigger]
        open.contains(u) && u.relation_type == relation && u.from_fqn == from && u.target_text == text
}

/// What was found before is still found.
pub open spec fn keeps(f: RelationFacts, after: RelationFacts) -> bool {
    &&& forall|l: LinkView| f.links.contains(l) ==> #[trigger] after.links.contains(l)
    &&& forall|u: OpenRelation| f.unresolved.contains(u) ==> #[trigger] after.unresolved.contains(u)
}

proof fn lemma_related(
    f: RelationFacts,
    k: Known,
    relation: JavaRelationType,
    from: Seq<char>,
    to: Seq<char>,
    witness: WitnessView,
)
    ensures
        keeps(f, related(f, k, relation, from, to, witness)),
        related(f, k, relation, from, to, witness).package == f.package,
        related(f, k, relation, from, to, witness).links.contains(
            related(f, k, relation, from, to, witness).links.last(),
        ),
{
    let after = related(f, k, relation, from, to, witness);
    lemma_push_contains(f.links, after.links.last());
    assert(after.links =~= f.links.push(after.links.last()));
}

proof fn lemma_type_kept(
    t: Seq<NodeView>,
    at: int,
    name: Seq<char>,
    f: RelationFacts,
    k: Known,
    from: Seq<char>,
    relation: JavaRelationType,
)
    ensures
        keeps(f, with_type(t, at, name, f, k, from, relation)),
        with_type(t, at, name, f, k, from, relation).package == f.package,
{
    let (names, source) = type_targets(f.package, k, name);
    if let Some(to) = first_known(k.ids, names, 0) {
        lemma_related(f, k, relation, from, to, derived(witness_of(t[at], k.file), source));
    }
}

proof fn lemma_first_type_kept(
    t: Seq<NodeView>,
    lo: int,
    hi: int,
    f: RelationFacts,
    k: Known,
    from: Seq<char>,
    relation: JavaRelationType,
)
    ensures
        keeps(f, with_first_type(t, lo, hi, f, k, from, relation)),
        with_first_type(t, lo, hi, f, k, from, relation).package == f.package,
    decreases hi - lo,
{
    if lo < hi {
        lemma_type_kept(t, lo, t[lo].text, f, k, from, relation);
        lemma_first_type_kept(t, node_end(t, lo, hi), hi, f, k, from, relation);
    }
}

proof fn lemma_types_kept(
    t: Seq<NodeView>,
    lo: int,
    hi: int,
    f: RelationFacts,
    k: Known,
    from: Seq<char>,
    relation: JavaRelationType,
)
    ensures
        keeps(f, with_types(t, lo, hi, f, k, from, relation)),
        with_types(t, lo, hi, f, k, from, relation).package == f.package,
    decreases hi - lo,
{
    if lo < hi {
        let end = node_end(t, lo, hi);
        lemma_type_kept(t, lo, t[lo].text, f, k, from, relation);
        lemma_types_kept(t, lo + 1, end, f, k, from, relation);
        let after = if is_type_name(t[lo]) {
            with_type(t, lo, t[lo].text, f, k, from, relation)
        } else if t[lo].kind == "type_list"@ {
            with_types(t, lo + 1, end, f, k, from, relation)
        } else {
            f
        };
        lemma_types_kept(t, end, hi, after, k, from, relation);
    }
}

proof fn lemma_clauses_kept(
    t: Seq<NodeView>,
    lo: int,
    hi: int,
    kind: Seq<char>,
    f: RelationFacts,
    k: Known,
    from: Seq<char>,
    relation: JavaRelationType,
)
    ensures
        keeps(f, with_clauses(t, lo, hi, kind, f, k, from, relation)),
        with_clauses(t, lo, hi, kind, f, k, from, relation).package == f.package,
    decreases hi - lo,
{
    if lo < hi {
        let end = node_end(t, lo, hi);
        lemma_types_kept(t, lo + 1, end, f, k, from, relation);
        let after = if t[lo].kind == kind {
            with_types(t, lo + 1, end, f, k, from, relation)
        } else {
            f
        };
        lemma_clauses_kept(t, end, hi, kind, after, k, from, relation);
    }
}

/// The facts with the annotation at `lo`, if one stands there.
spec fn with_one_annotation(
    t: Seq<NodeView>,
    lo: int,
    end: int,
    f: RelationFacts,
    k: Known,
    from: Seq<char>,
) -> RelationFacts {
    match child_in_role(t, lo, end, "name"@) {
        Some((a, _)) => if t[lo].kind == "marker_annotation"@ || t[lo].kind == "annotation"@ {
            with_type(t, lo, t[a].text, f, k, from, JavaRelationType::AnnotatedWith)
        } else {
            f
        },
        None => f,
    }
}

proof fn lemma_annotations_kept(t: Seq<NodeView>, lo: int, hi: int, f: RelationFacts, k: Known, from: Seq<char>)
    ensures
        keeps(f, with_annotations(t, lo, hi, f, k, from)),
        with_annotations(t, lo, hi, f, k, from).package == f.package,
    decreases hi - lo,
{
    if lo < hi {
        let end = node_end(t, lo, hi);
        if let Some((a, _)) = child_in_role(t, lo, end, "name"@) {
            lemma_type_kept(t, lo, t[a].text, f, k, from, JavaRelationType::AnnotatedWith);
        }
        lemma_annotations_kept(t, end, hi, with_one_annotation(t, lo, end, f, k, from), k, from);
    }
}

proof fn lemma_container_kept(
    t: Seq<NodeView>,
    lo: int,
    container: Option<Seq<char>>,
    f: RelationFacts,
    k: Known,
    from: Seq<char>,
)
    ensures
        keeps(f, with_container(t, lo, container, f, k, from)),
        with_container(t, lo, container, f, k, from).package == f.package,
        container matches Some(name) ==> (lookup(k.ids, name) matches Some(to) ==> is_linked(
            with_container(t, lo, container, f, k, from).links,
            "java.contained_in"@,
            from,
            to,
            t[lo],
            k.file,
        )),
{
    if let Some(name) = container {
        if let Some(to) = lookup(k.ids, name) {
            let w = witness_of(t[lo], k.file);
            lemma_related(f, k, JavaRelationType::ContainedIn, from, to, w);
            let after = related(f, k, JavaRelationType::ContainedIn, from, to, w);
            assert(is_link(after.links.last(), "java.contained_in"@, from, to, t[lo], k.file));
        }
    }
}

proof fn lemma_body_kept(
    t: Seq<NodeView>,
    lo: int,
    hi: int,
    caller: Seq<char>,
    classes: Seq<Seq<char>>,
    f: RelationFacts,
    k: Known,
)
    ensures
        keeps(f, with_body(t, lo, hi, caller, classes, f, k)),
        with_body(t, lo, hi, caller, classes, f, k).package == f.package,
    decreases hi - lo,
{
    if lo < hi {
        let end = node_end(t, lo, hi);
        lemma_call_kept(t, lo, end, caller, classes, f, k);
        lemma_construction_kept(t, lo, end, caller, f, k);
        let after = if t[lo].kind == "method_invocation"@ {
            with_call(t, lo, end, caller, classes, f, k)
        } else if t[lo].kind == "object_creation_expression"@ {
            with_construction(t, lo, end, caller, f, k)
        } else {
            f
        };
        lemma_body_kept(t, lo + 1, hi, caller, classes, after, k);
    }
}

/// The name a call goes to: what the language server says, or else the member
/// in the own package, the member as written, or the member of the own class.
pub open spec fn called(
    package: Option<Seq<char>>,
    names: Seq<Seq<char>>,
    k: Known,
    object: Option<Seq<char>>,
    name: Seq<char>,
    fqn: Seq<char>,
) -> bool {
    let written = match object {
        Some(o) => o + "."@ + name,
        None => name,
    };
    match lookup(k.resolved, written) {
        Some(answer) => fqn == answer,
        None => match object {
            None => fqn == dotted(package, names) + "."@ + name,
            Some(o) => match package {
                None => fqn == o + "."@ + name,
                Some(p) => fqn == p + "."@ + o + "."@ + name || fqn == o + "."@ + name && lookup(
                    k.ids,
                    p + "."@ + o + "."@ + name,
                ) is None,
            },
        },
    }
}

/// What the call `lo..hi` is made on.
pub open spec fn object_of(t: Seq<NodeView>, lo: int, hi: int) -> Option<Seq<char>> {
    match child_in_role(t, lo, hi, "object"@) {
        Some((a, _)) => Some(t[a].text),
        None => None,
    }
}

/// A call as it is written.
pub open spec fn written(object: Option<Seq<char>>, name: Seq<char>) -> Seq<char> {
    match object {
        Some(o) => o + "."@ + name,
        None => name,
    }
}

/// A call in the caller is found: as a relation to each known name that it goes
/// to, or as the use of an unknown name.
pub open spec fn is_call_found(
    n: NodeView,
    caller: Seq<char>,
    package: Option<Seq<char>>,
    names: Seq<Seq<char>>,
    k: Known,
    object: Option<Seq<char>>,
    name: Seq<char>,
    after: RelationFacts,
) -> bool {
    &&& forall|fqn: Seq<char>, to: Seq<char>|
        called(package, names, k, object, name, fqn) && #[trigger] lookup(k.ids, fqn) == Some(to) ==> #[trigger]
        is_linked(after.links, "java.calls"@, lookup(k.ids, caller)->0, to, n, k.file)
    &&& (exists|fqn: Seq<char>| #[trigger] called(package, names, k, object, name, fqn) && lookup(k.ids, fqn) is Some)
        || is_open(after.unresolved, JavaRelationType::Calls, caller, written(object, name))
}

/// What the call `lo..hi` adds.
pub open spec fn call_found(
    t: Seq<NodeView>,
    lo: int,
    hi: int,
    caller: Seq<char>,
    package: Option<Seq<char>>,
    names: Seq<Seq<char>>,
    k: Known,
    after: RelationFacts,
) -> bool {
    lookup(k.ids, caller) is Some && text_in_role(t, lo, hi, "name"@).len() > 0 ==> is_call_found(
        t[lo],
        caller,
        package,
        names,
        k,
        object_of(t, lo, hi),
        text_in_role(t, lo, hi, "name"@),
        after,
    )
}

proof fn lemma_call_kept(
    t: Seq<NodeView>,
    lo: int,
    hi: int,
    caller: Seq<char>,
    classes: Seq<Seq<char>>,
    f: RelationFacts,
    k: Known,
)
    ensures
        keeps(f, with_call(t, lo, hi, caller, classes, f, k)),
        with_call(t, lo, hi, caller, classes, f, k).package == f.package,
        call_found(t, lo, hi, caller, f.package, classes, k, with_call(t, lo, hi, caller, classes, f, k)),
{
    let name = text_in_role(t, lo, hi, "name"@);
    let object = object_of(t, lo, hi);
    let (names, source) = call_targets(f.package, classes, k, name, object);
    let witness = derived(witness_of(t[lo], k.file), source);
    let after = with_call(t, lo, hi, caller, classes, f, k);
    if let Some(from) = lookup(k.ids, caller) {
        if name.len() > 0 {
            assert(names.len() > 0);
            reveal_with_fuel(first_known, 3);
            match first_known(k.ids, names, 0) {
                Some(to) => {
                    lemma_related(f, k, JavaRelationType::Calls, from, to, witness);
                    assert(is_link(after.links.last(), "java.calls"@, from, to, t[lo], k.file));
                    assert(is_linked(after.links, "java.calls"@, from, to, t[lo], k.file));
                    assert forall|fqn: Seq<char>, other: Seq<char>|
                        called(f.package, classes, k, object, name, fqn) && #[trigger] lookup(k.ids, fqn) == Some(
                            other,
                        ) implies #[trigger] is_linked(
                        after.links,
                        "java.calls"@,
                        lookup(k.ids, caller)->0,
                        other,
                        t[lo],
                        k.file,
                    ) by {
                        assert(fqn == names[0] || names.len() == 2 && fqn == names[1]);
                    }
                    if lookup(k.ids, names[0]) is Some {
                        assert(called(f.package, classes, k, object, name, names[0]));
                    } else {
                        assert(called(f.package, classes, k, object, name, names[1]));
                    }
                },
                None => {
                    lemma_push_contains(f.unresolved, after.unresolved.last());
                    assert(after.unresolved =~= f.unresolved.push(after.unresolved.last()));
                    assert(after.unresolved.contains(after.unresolved.last()));
                    assert forall|fqn: Seq<char>| #[trigger]
                        called(f.package, classes, k, object, name, fqn) implies lookup(k.ids, fqn) is None by {
                        assert(fqn == names[0] || names.len() == 2 && fqn == names[1]);
                    }
                    assert(is_open(after.unresolved, JavaRelationType::Calls, caller, written(object, name)));
                },
            }
        }
    }
}

/// A known name that a type name can mean: it is the name or ends in it.
pub open spec fn means_type(fqn: Seq<char>, name: Seq<char>) -> bool {
    fqn == name || exists|outer: Seq<char>| fqn == #[trigger] (outer + "."@) + name
}

/// The cell a type name leads to: what the language server says, or else the
/// name itself where it is dotted, the type of the own package, or some known
/// type of that name.
pub open spec fn leads_to(package: Option<Seq<char>>, k: Known, name: Seq<char>, to: Seq<char>) -> bool {
    match lookup(k.resolved, name) {
        Some(answer) => lookup(k.ids, answer) == Some(to),
        None => if holds(name, "."@) && lookup(k.ids, name) is Some {
            lookup(k.ids, name) == Some(to)
        } else {
            match (package, lookup(k.ids, package->0 + "."@ + name)) {
                (Some(_), Some(id)) => to == id,
                _ => exists|fqn: Seq<char>| means_type(fqn, name) && #[trigger] lookup(k.ids, fqn) == Some(to),
            }
        },
    }
}

/// Nothing known can be meant by a type name.
pub open spec fn leads_nowhere(k: Known, name: Seq<char>) -> bool {
    match lookup(k.resolved, name) {
        Some(answer) => lookup(k.ids, answer) is None,
        None => forall|fqn: Seq<char>| means_type(fqn, name) ==> #[trigger] lookup(k.ids, fqn) is None,
    }
}

proof fn lemma_known_names(ids: Seq<(Seq<char>, Seq<char>)>, name: Seq<char>, n: int, found: Seq<Seq<char>>)
    requires
        0 <= n <= ids.len(),
    ensures
        found.is_prefix_of(with_known_names(ids, name, n, found)),
        forall|x: Seq<char>| #[trigger]
            with_known_names(ids, name, n, found).contains(x) <==> found.contains(x) || exists|j: int|
                0 <= j < n && (#[trigger] ids[j]).0 == x && means_type(x, name),
    decreases n,
{
    let all = with_known_names(ids, name, n, found);
    if n > 0 {
        lemma_known_names(ids, name, n - 1, found);
        let before = with_known_names(ids, name, n - 1, found);
        let fqn = ids[n - 1].0;
        lemma_push_contains(before, fqn);
        assert((ends(fqn, "."@ + name) || fqn == name) <==> means_type(fqn, name)) by {
            if ends(fqn, "."@ + name) {
                let outer = fqn.take(fqn.len() - ("."@ + name).len());
                let tail = "."@ + name;
                assert(fqn.subrange(fqn.len() - tail.len(), fqn.len() as int) == tail);
                assert(fqn =~= outer + tail);
                assert(outer + tail =~= (outer + "."@) + name);
            }
            if means_type(fqn, name) && fqn != name {
                let outer = choose|outer: Seq<char>| fqn == #[trigger] (outer + "."@) + name;
                assert(fqn.skip(fqn.len() - ("."@ + name).len()) =~= "."@ + name);
            }
        }
        assert forall|x: Seq<char>| #[trigger] all.contains(x) <==> found.contains(x) || exists|j: int|
            0 <= j < n && (#[trigger] ids[j]).0 == x && means_type(x, name) by {
            assert(before.contains(x) <==> found.contains(x) || exists|j: int|
                0 <= j < n - 1 && (#[trigger] ids[j]).0 == x && means_type(x, name));
            if fqn == x && means_type(x, name) {
                assert(ids[n - 1].0 == x);
                assert(all.contains(x));
            }
        }
        assert(found =~= all.subrange(0, found.len() as int)) by {
            assert forall|i: int| 0 <= i < found.len() implies found[i] == all[i] by {
                assert(found[i] == before[i]);
            }
        }
    } else {
        assert(found =~= all.subrange(0, found.len() as int));
    }
}

proof fn lemma_first_known(ids: Seq<(Seq<char>, Seq<char>)>, names: Seq<Seq<char>>, i: int)
    requires
        0 <= i,
    ensures
        match first_known(ids, names, i) {
            Some(to) => exists|j: int|
                i <= j < names.len() && lookup(ids, #[trigger] names[j]) == Some(to) && forall|m: int|
                    i <= m < j ==> lookup(ids, #[trigger] names[m]) is None,
            None => forall|j: int| i <= j < names.len() ==> lookup(ids, #[trigger] names[j]) is None,
        },
    decreases names.len() - i,
{
    if i < names.len() {
        if lookup(ids, names[i]) is Some {
            assert(forall|m: int| i <= m < i ==> lookup(ids, #[trigger] names[m]) is None);
        } else {
            lemma_first_known(ids, names, i + 1);
            if let Some(to) = first_known(ids, names, i + 1) {
                let j = choose|j: int|
                    i + 1 <= j < names.len() && lookup(ids, #[trigger] names[j]) == Some(to) && forall|m: int|
                        i + 1 <= m < j ==> lookup(ids, #[trigger] names[m]) is None;
                assert forall|m: int| i <= m < j implies lookup(ids, #[trigger] names[m]) is None by {}
                assert(lookup(ids, names[j]) == Some(to));
            }
        }
    }
}

/// A type name leads where it should.
proof fn lemma_type_leads(package: Option<Seq<char>>, k: Known, name: Seq<char>)
    ensures
        match first_known(k.ids, type_targets(package, k, name).0, 0) {
            Some(to) => leads_to(package, k, name, to),
            None => leads_nowhere(k, name),
        },
{
    let names = type_targets(package, k, name).0;
    lemma_first_known(k.ids, names, 0);
    lemma_find(name, "."@, 0);
    if let Some(answer) = lookup(k.resolved, name) {
        assert(names =~= seq![answer]);
        assert(names[0] == answer);
    } else {
        let start = if has(name, "."@) {
            seq![name]
        } else {
            Seq::empty()
        };
        let own = match package {
            Some(p) => start.push(p + "."@ + name),
            None => start,
        };
        lemma_known_names(k.ids, name, k.ids.len() as int, own);
        assert(names == with_known_names(k.ids, name, k.ids.len() as int, own));
        assert forall|i: int| 0 <= i < own.len() implies own[i] == names[i] by {}
        assert forall|x: Seq<char>| own.contains(x) implies means_type(x, name) by {
            if package is Some && x == package->0 + "."@ + name {
                assert(x == (package->0 + "."@) + name);
            }
        }
        match first_known(k.ids, names, 0) {
            Some(to) => {
                let j = choose|j: int|
                    0 <= j < names.len() && lookup(k.ids, #[trigger] names[j]) == Some(to) && forall|m: int|
                        0 <= m < j ==> lookup(k.ids, #[trigger] names[m]) is None;
                assert(names.contains(names[j]));
                assert(means_type(names[j], name));
                if has(name, "."@) {
                    assert(names[0] == own[0] && own[0] == name);
                }
                if package is Some {
                    let a = start.len() as int;
                    assert(names[a] == own[a] && own[a] == package->0 + "."@ + name);
                    if j > 1 {
                        assert(lookup(k.ids, names[a]) is None);
                    }
                }
                if j > 0 {
                    assert(lookup(k.ids, names[0]) is None);
                }
                assert(lookup(k.ids, names[j]) == Some(to));
            },
            None => {
                assert forall|fqn: Seq<char>| means_type(fqn, name) implies #[trigger] lookup(k.ids, fqn) is None by {
                    lemma_key_position(k.ids, fqn);
                    if lookup(k.ids, fqn) is Some {
                        let j = crate::text_map::key_position(k.ids, fqn)->Some_0;
                        assert(k.ids[j].0 == fqn);
                        assert(names.contains(fqn));
                        let i = choose|i: int| 0 <= i < names.len() && names[i] == fqn;
                        assert(lookup(k.ids, names[i]) is None);
                    }
                }
            },
        }
    }
}

/// A relation of the kind goes from the cell to what the type name means, if it
/// means anything known.
pub open spec fn type_found(
    links: Seq<LinkView>,
    relation: Seq<char>,
    from: Seq<char>,
    package: Option<Seq<char>>,
    k: Known,
    name: Seq<char>,
    n: NodeView,
) -> bool {
    leads_nowhere(k, name) || exists|to: Seq<char>| #[trigger]
        leads_to(package, k, name, to) && is_linked(links, relation, from, to, n, k.file)
}

/// What the construction `lo..hi` adds.
pub open spec fn construction_found(
    t: Seq<NodeView>,
    lo: int,
    hi: int,
    caller: Seq<char>,
    package: Option<Seq<char>>,
    k: Known,
    after: RelationFacts,
) -> bool {
    let name = text_in_role(t, lo, hi, "type"@);
    lookup(k.ids, caller) matches Some(from) ==> name.len() > 0 ==> {
        &&& type_found(after.links, "java.constructs"@, from, package, k, name, t[lo])
        &&& leads_nowhere(k, name) ==> is_open(
            after.unresolved,
            JavaRelationType::Constructs,
            caller,
            "new "@ + name,
        )
    }
}

proof fn lemma_type_at(
    t: Seq<NodeView>,
    at: int,
    name: Seq<char>,
    f: RelationFacts,
    k: Known,
    from: Seq<char>,
    relation: JavaRelationType,
    text: Seq<char>,
)
    requires
        text == crate::model::relation::relation_text(relation),
    ensures
        type_found(with_type(t, at, name, f, k, from, relation).links, text, from, f.package, k, name, t[at]),
        first_known(k.ids, type_targets(f.package, k, name).0, 0) is Some || leads_nowhere(k, name),
{
    lemma_type_leads(f.package, k, name);
    let (names, source) = type_targets(f.package, k, name);
    if let Some(to) = first_known(k.ids, names, 0) {
        let w = derived(witness_of(t[at], k.file), source);
        lemma_related(f, k, relation, from, to, w);
        let after = with_type(t, at, name, f, k, from, relation);
        assert(is_link(after.links.last(), text, from, to, t[at], k.file));
        assert(is_linked(after.links, text, from, to, t[at], k.file));
    }
}

proof fn lemma_construction_kept(
    t: Seq<NodeView>,
    lo: int,
    hi: int,
    caller: Seq<char>,
    f: RelationFacts,
    k: Known,
)
    ensures
        keeps(f, with_construction(t, lo, hi, caller, f, k)),
        with_construction(t, lo, hi, caller, f, k).package == f.package,
        construction_found(t, lo, hi, caller, f.package, k, with_construction(t, lo, hi, caller, f, k)),
{
    let name = text_in_role(t, lo, hi, "type"@);
    let (names, source) = type_targets(f.package, k, name);
    let witness = derived(witness_of(t[lo], k.file), source);
    let after = with_construction(t, lo, hi, caller, f, k);
    lemma_type_leads(f.package, k, name);
    if let Some(from) = lookup(k.ids, caller) {
        if name.len() > 0 {
            match first_known(k.ids, names, 0) {
                Some(to) => {
                    lemma_related(f, k, JavaRelationType::Constructs, from, to, witness);
                    assert(is_link(after.links.last(), "java.constructs"@, from, to, t[lo], k.file));
                    assert(is_linked(after.links, "java.constructs"@, from, to, t[lo], k.file));
                    lemma_not_both(f.package, k, name, to);
                },
                None => {
                    lemma_push_contains(f.unresolved, after.unresolved.last());
                    assert(after.unresolved =~= f.unresolved.push(after.unresolved.last()));
                    assert(after.unresolved.contains(after.unresolved.last()));
                },
            }
        }
    }
}

proof fn lemma_not_both(package: Option<Seq<char>>, k: Known, name: Seq<char>, to: Seq<char>)
    requires
        leads_to(package, k, name, to),
    ensures
        !leads_nowhere(k, name),
{
    if lookup(k.resolved, name) is None {
        if let Some(p) = package {
            assert(means_type(p + "."@ + name, name)) by {
                assert(p + "."@ + name == (p + "."@) + name);
            }
        }
        assert(means_type(name, name));
        if leads_nowhere(k, name) {
            assert(lookup(k.ids, name) is None);
            if package is Some {
                assert(lookup(k.ids, package->0 + "."@ + name) is None);
            }
            let fqn = choose|fqn: Seq<char>| means_type(fqn, name) && #[trigger] lookup(k.ids, fqn) == Some(to);
            assert(lookup(k.ids, fqn) is None);
        }
    }
}

/// What is linked stays linked.
proof fn lemma_linked_kept(a: Seq<LinkView>, b: Seq<LinkView>)
    requires
        forall|l: LinkView| a.contains(l) ==> #[trigger] b.contains(l),
    ensures
        forall|relation: Seq<char>, from: Seq<char>, to: Seq<char>, n: NodeView, file: Seq<char>|
            is_linked(a, relation, from, to, n, file) ==> #[trigger] is_linked(b, relation, from, to, n, file),
        forall|
            relation: Seq<char>,
            from: Seq<char>,
            package: Option<Seq<char>>,
            k: Known,
            name: Seq<char>,
            n: NodeView,
        |
            type_found(a, relation, from, package, k, name, n) ==> #[trigger] type_found(
                b,
                relation,
                from,
                package,
                k,
                name,
                n,
            ),
{
    assert forall|relation: Seq<char>, from: Seq<char>, to: Seq<char>, n: NodeView, file: Seq<char>|
        is_linked(a, relation, from, to, n, file) implies #[trigger] is_linked(b, relation, from, to, n, file) by {
        let l = choose|l: LinkView| #[trigger] a.contains(l) && is_link(l, relation, from, to, n, file);
        assert(b.contains(l));
    }
    assert forall|
        relation: Seq<char>,
        from: Seq<char>,
        package: Option<Seq<char>>,
        k: Known,
        name: Seq<char>,
        n: NodeView,
    |
        type_found(a, relation, from, package, k, name, n) implies #[trigger] type_found(
        b,
        relation,
        from,
        package,
        k,
        name,
        n,
    ) by {
        if !leads_nowhere(k, name) {
            let to = choose|to: Seq<char>| #[trigger]
                leads_to(package, k, name, to) && is_linked(a, relation, from, to, n, k.file);
            assert(is_linked(b, relation, from, to, n, k.file));
            assert(leads_to(package, k, name, to));
        }
    }
}

/// The node `q` is one of the siblings in a range.
pub open spec fn stands_among(t: Seq<NodeView>, lo: int, hi: int, q: int) -> bool
    decreases hi - lo,
{
    lo < hi && (q == lo || stands_among(t, node_end(t, lo, hi), hi, q))
}

pub open spec fn names_type(n: NodeView) -> bool {
    n.kind == "type_identifier"@ || n.kind == "scoped_type_identifier"@
}

/// The node `q` names a type among the siblings in a range, or in a type list
/// there.
pub open spec fn lists_type(t: Seq<NodeView>, lo: int, hi: int, q: int) -> bool
    decreases hi - lo,
{
    lo < hi && {
        ||| q == lo && names_type(t[lo])
        ||| !names_type(t[lo]) && t[lo].kind == "type_list"@ && lists_type(t, lo + 1, node_end(t, lo, hi), q)
        ||| lists_type(t, node_end(t, lo, hi), hi, q)
    }
}

/// The node `q` names a type in a clause of the kind.
pub open spec fn clause_names(t: Seq<NodeView>, lo: int, hi: int, kind: Seq<char>, q: int) -> bool
    decreases hi - lo,
{
    lo < hi && {
        ||| t[lo].kind == kind && lists_type(t, lo + 1, node_end(t, lo, hi), q)
        ||| clause_names(t, node_end(t, lo, hi), hi, kind, q)
    }
}

/// The node `q` is the first among the siblings that names a type.
pub open spec fn first_names(t: Seq<NodeView>, lo: int, hi: int, q: int) -> bool
    decreases hi - lo,
{
    lo < hi && if names_type(t[lo]) {
        q == lo
    } else {
        first_names(t, node_end(t, lo, hi), hi, q)
    }
}

proof fn lemma_types_found(
    t: Seq<NodeView>,
    lo: int,
    hi: int,
    f: RelationFacts,
    k: Known,
    from: Seq<char>,
    relation: JavaRelationType,
    text: Seq<char>,
    q: int,
)
    requires
        text == crate::model::relation::relation_text(relation),
        lists_type(t, lo, hi, q),
    ensures
        type_found(
            with_types(t, lo, hi, f, k, from, relation).links,
            text,
            from,
            f.package,
            k,
            t[q].text,
            t[q],
        ),
    decreases hi - lo,
{
    let end = node_end(t, lo, hi);
    let after = if is_type_name(t[lo]) {
        with_type(t, lo, t[lo].text, f, k, from, relation)
    } else if t[lo].kind == "type_list"@ {
        with_types(t, lo + 1, end, f, k, from, relation)
    } else {
        f
    };
    lemma_type_kept(t, lo, t[lo].text, f, k, from, relation);
    lemma_types_kept(t, lo + 1, end, f, k, from, relation);
    lemma_types_kept(t, end, hi, after, k, from, relation);
    lemma_linked_kept(after.links, with_types(t, lo, hi, f, k, from, relation).links);
    if q == lo && names_type(t[lo]) {
        lemma_type_at(t, lo, t[lo].text, f, k, from, relation, text);
    } else if lists_type(t, end, hi, q) {
        lemma_types_found(t, end, hi, after, k, from, relation, text, q);
    } else {
        lemma_types_found(t, lo + 1, end, f, k, from, relation, text, q);
    }
}

proof fn lemma_clauses_found(
    t: Seq<NodeView>,
    lo: int,
    hi: int,
    kind: Seq<char>,
    f: RelationFacts,
    k: Known,
    from: Seq<char>,
    relation: JavaRelationType,
    text: Seq<char>,
    q: int,
)
    requires
        text == crate::model::relation::relation_text(relation),
        clause_names(t, lo, hi, kind, q),
    ensures
        type_found(
            with_clauses(t, lo, hi, kind, f, k, from, relation).links,
            text,
            from,
            f.package,
            k,
            t[q].text,
            t[q],
        ),
    decreases hi - lo,
{
    let end = node_end(t, lo, hi);
    let after = if t[lo].kind == kind {
        with_types(t, lo + 1, end, f, k, from, relation)
    } else {
        f
    };
    lemma_types_kept(t, lo + 1, end, f, k, from, relation);
    lemma_clauses_kept(t, end, hi, kind, after, k, from, relation);
    lemma_linked_kept(after.links, with_clauses(t, lo, hi, kind, f, k, from, relation).links);
    if clause_names(t, end, hi, kind, q) {
        lemma_clauses_found(t, end, hi, kind, after, k, from, relation, text, q);
    } else {
        lemma_types_found(t, lo + 1, end, f, k, from, relation, text, q);
    }
}

proof fn lemma_first_type_found(
    t: Seq<NodeView>,
    lo: int,
    hi: int,
    f: RelationFacts,
    k: Known,
    from: Seq<char>,
    relation: JavaRelationType,
    text: Seq<char>,
    q: int,
)
    requires
        text == crate::model::relation::relation_text(relation),
        first_names(t, lo, hi, q),
    ensures
        type_found(
            with_first_type(t, lo, hi, f, k, from, relation).links,
            text,
            from,
            f.package,
            k,
            t[q].text,
            t[q],
        ),
    decreases hi - lo,
{
    if names_type(t[lo]) {
        lemma_type_at(t, lo, t[lo].text, f, k, from, relation, text);
    } else {
        lemma_first_type_found(t, node_end(t, lo, hi), hi, f, k, from, relation, text, q);
    }
}

/// Every annotation among the siblings in a range is found.
pub open spec fn annotations_found(
    t: Seq<NodeView>,
    lo: int,
    hi: int,
    package: Option<Seq<char>>,
    k: Known,
    from: Seq<char>,
    links: Seq<LinkView>,
) -> bool {
    forall|q: int|
        #[trigger] stands_among(t, lo, hi, q) && (t[q].kind == "marker_annotation"@ || t[q].kind == "annotation"@)
            ==> (child_in_role(t, q, node_end(t, q, hi), "name"@) matches Some((a, _)) ==> type_found(
            links,
            "java.annotated_with"@,
            from,
            package,
            k,
            t[a].text,
            t[q],
        ))
}

proof fn lemma_annotations_found(t: Seq<NodeView>, lo: int, hi: int, f: RelationFacts, k: Known, from: Seq<char>)
    ensures
        annotations_found(t, lo, hi, f.package, k, from, with_annotations(t, lo, hi, f, k, from).links),
    decreases hi - lo,
{
    if lo < hi {
        let end = node_end(t, lo, hi);
        let after = with_one_annotation(t, lo, end, f, k, from);
        let last = with_annotations(t, lo, hi, f, k, from);
        if let Some((a, _)) = child_in_role(t, lo, end, "name"@) {
            lemma_type_kept(t, lo, t[a].text, f, k, from, JavaRelationType::AnnotatedWith);
            lemma_type_at(
                t,
                lo,
                t[a].text,
                f,
                k,
                from,
                JavaRelationType::AnnotatedWith,
                "java.annotated_with"@,
            );
        }
        lemma_annotations_kept(t, end, hi, after, k, from);
        lemma_annotations_found(t, end, hi, after, k, from);
        lemma_linked_kept(after.links, last.links);
        assert forall|q: int|
            #[trigger] stands_among(t, lo, hi, q) && (t[q].kind == "marker_annotation"@ || t[q].kind == "annotation"@)
            implies (child_in_role(t, q, node_end(t, q, hi), "name"@) matches Some((a, _)) ==> type_found(
            last.links,
            "java.annotated_with"@,
            from,
            f.package,
            k,
            t[a].text,
            t[q],
        )) by {
            if q != lo {
                assert(stands_among(t, end, hi, q));
            }
        }
    }
}

/// The head of the type `lo..hi` is found: what the type is declared in, what
/// it extends and implements, and its annotations.
pub open spec fn head_found(
    t: Seq<NodeView>,
    lo: int,
    hi: int,
    names: Seq<Seq<char>>,
    package: Option<Seq<char>>,
    k: Known,
    from: Seq<char>,
    links: Seq<LinkView>,
) -> bool {
    &&& names.len() > 0 ==> (lookup(k.ids, dotted(package, names)) matches Some(to) ==> is_linked(
        links,
        "java.contained_in"@,
        from,
        to,
        t[lo],
        k.file,
    ))
    &&& names.len() == 0 ==> (package matches Some(p) ==> (lookup(k.ids, p) matches Some(to) ==> is_linked(
        links,
        "java.contained_in"@,
        from,
        to,
        t[lo],
        k.file,
    )))
    &&& t[lo].kind == "interface_declaration"@ ==> forall|q: int| #[trigger]
        clause_names(t, lo + 1, hi, "extends_interfaces"@, q) ==> type_found(
            links,
            "java.extends"@,
            from,
            package,
            k,
            t[q].text,
            t[q],
        )
    &&& t[lo].kind != "interface_declaration"@ ==> (child_in_role(t, lo, hi, "superclass"@) matches Some((a, b))
        ==> forall|q: int| #[trigger]
        first_names(t, a + 1, b, q) ==> type_found(links, "java.extends"@, from, package, k, t[q].text, t[q]))
    &&& t[lo].kind != "interface_declaration"@ ==> (child_in_role(t, lo, hi, "interfaces"@) matches Some((a, b))
        ==> forall|q: int| #[trigger]
        lists_type(t, a + 1, b, q) ==> type_found(links, "java.implements"@, from, package, k, t[q].text, t[q]))
    &&& annotations_found(t, lo + 1, hi, package, k, from, links)
}

proof fn lemma_head_found(
    t: Seq<NodeView>,
    lo: int,
    hi: int,
    classes: Seq<Seq<char>>,
    f: RelationFacts,
    k: Known,
)
    ensures
        keeps(f, with_type_head(t, lo, hi, classes, f, k)),
        with_type_head(t, lo, hi, classes, f, k).package == f.package,
        lookup(k.ids, dotted(f.package, classes.push(text_in_role(t, lo, hi, "name"@)))) matches Some(from)
            ==> head_found(t, lo, hi, classes, f.package, k, from, with_type_head(t, lo, hi, classes, f, k).links),
{
    let name = text_in_role(t, lo, hi, "name"@);
    assert(dotted(f.package, classes.push(name)) == fqn_in(f.package, classes, name));
    if let Some(from) = lookup(k.ids, fqn_in(f.package, classes, name)) {
        let last = with_type_head(t, lo, hi, classes, f, k);
        let f1 = with_container(t, lo, container_of(f.package, classes), f, k, from);
        lemma_container_kept(t, lo, container_of(f.package, classes), f, k, from);
        let extended = match child_in_role(t, lo, hi, "superclass"@) {
            Some((a, b)) => with_first_type(t, a + 1, b, f1, k, from, JavaRelationType::Extends),
            None => f1,
        };
        let f2 = if t[lo].kind == "interface_declaration"@ {
            with_clauses(t, lo + 1, hi, "extends_interfaces"@, f1, k, from, JavaRelationType::Extends)
        } else {
            match child_in_role(t, lo, hi, "interfaces"@) {
                Some((a, b)) => with_types(t, a + 1, b, extended, k, from, JavaRelationType::Implements),
                None => extended,
            }
        };
        lemma_clauses_kept(t, lo + 1, hi, "extends_interfaces"@, f1, k, from, JavaRelationType::Extends);
        if let Some((a, b)) = child_in_role(t, lo, hi, "superclass"@) {
            lemma_first_type_kept(t, a + 1, b, f1, k, from, JavaRelationType::Extends);
        }
        if let Some((a, b)) = child_in_role(t, lo, hi, "interfaces"@) {
            lemma_types_kept(t, a + 1, b, extended, k, from, JavaRelationType::Implements);
        }
        lemma_annotations_kept(t, lo + 1, hi, f2, k, from);
        lemma_annotations_found(t, lo + 1, hi, f2, k, from);
        lemma_linked_kept(f1.links, last.links);
        lemma_linked_kept(f2.links, last.links);
        if t[lo].kind == "interface_declaration"@ {
            assert forall|q: int| #[trigger] clause_names(t, lo + 1, hi, "extends_interfaces"@, q) implies type_found(
                last.links,
                "java.extends"@,
                from,
                f.package,
                k,
                t[q].text,
                t[q],
            ) by {
                lemma_clauses_found(
                    t,
                    lo + 1,
                    hi,
                    "extends_interfaces"@,
                    f1,
                    k,
                    from,
                    JavaRelationType::Extends,
                    "java.extends"@,
                    q,
                );
            }
        } else {
            lemma_linked_kept(extended.links, f2.links);
            if let Some((a, b)) = child_in_role(t, lo, hi, "superclass"@) {
                assert forall|q: int| #[trigger] first_names(t, a + 1, b, q) implies type_found(
                    last.links,
                    "java.extends"@,
                    from,
                    f.package,
                    k,
                    t[q].text,
                    t[q],
                ) by {
                    lemma_first_type_found(
                        t,
                        a + 1,
                        b,
                        f1,
                        k,
                        from,
                        JavaRelationType::Extends,
                        "java.extends"@,
                        q,
                    );
                    assert(type_found(f2.links, "java.extends"@, from, f.package, k, t[q].text, t[q]));
                }
            }
            if let Some((a, b)) = child_in_role(t, lo, hi, "interfaces"@) {
                assert forall|q: int| #[trigger] lists_type(t, a + 1, b, q) implies type_found(
                    last.links,
                    "java.implements"@,
                    from,
                    f.package,
                    k,
                    t[q].text,
                    t[q],
                ) by {
                    lemma_types_found(
                        t,
                        a + 1,
                        b,
                        extended,
                        k,
                        from,
                        JavaRelationType::Implements,
                        "java.implements"@,
                        q,
                    );
                }
            }
        }
    }
}

/// What is found stays found.
proof fn lemma_found_kept(f: RelationFacts, after: RelationFacts)
    requires
        keeps(f, after),
    ensures
        forall|relation: JavaRelationType, from: Seq<char>, text: Seq<char>|
            is_open(f.unresolved, relation, from, text) ==> #[trigger] is_open(after.unresolved, relation, from, text),
{
    assert forall|relation: JavaRelationType, from: Seq<char>, text: Seq<char>|
        is_open(f.unresolved, relation, from, text) implies #[trigger] is_open(
        after.unresolved,
        relation,
        from,
        text,
    ) by {
        let u = choose|u: OpenRelation| #[trigger]
            f.unresolved.contains(u) && u.relation_type == relation && u.from_fqn == from && u.target_text == text;
        assert(after.unresolved.contains(u));
    }
}

proof fn lemma_call_found_kept(
    t: Seq<NodeView>,
    lo: int,
    hi: int,
    caller: Seq<char>,
    package: Option<Seq<char>>,
    names: Seq<Seq<char>>,
    k: Known,
    f: RelationFacts,
    after: RelationFacts,
)
    requires
        keeps(f, after),
    ensures
        call_found(t, lo, hi, caller, package, names, k, f) ==> call_found(
            t,
            lo,
            hi,
            caller,
            package,
            names,
            k,
            after,
        ),
        construction_found(t, lo, hi, caller, package, k, f) ==> construction_found(
            t,
            lo,
            hi,
            caller,
            package,
            k,
            after,
        ),
{
    lemma_found_kept(f, after);
    lemma_linked_kept(f.links, after.links);
    let object = object_of(t, lo, hi);
    let name = text_in_role(t, lo, hi, "name"@);
    if is_call_found(t[lo], caller, package, names, k, object, name, f) {
        assert forall|fqn: Seq<char>, to: Seq<char>|
            called(package, names, k, object, name, fqn) && #[trigger] lookup(k.ids, fqn) == Some(to) implies #[trigger]
            is_linked(after.links, "java.calls"@, lookup(k.ids, caller)->0, to, t[lo], k.file) by {
            assert(is_linked(f.links, "java.calls"@, lookup(k.ids, caller)->0, to, t[lo], k.file));
        }
    }
}

/// The calls and constructions among the nodes of a range are found.
pub open spec fn body_found(
    t: Seq<NodeView>,
    lo: int,
    hi: int,
    caller: Seq<char>,
    package: Option<Seq<char>>,
    names: Seq<Seq<char>>,
    k: Known,
    after: RelationFacts,
) -> bool {
    forall|c: int|
        lo <= c < hi ==> {
            &&& (#[trigger] t[c]).kind == "method_invocation"@ ==> call_found(
                t,
                c,
                node_end(t, c, hi),
                caller,
                package,
                names,
                k,
                after,
            )
            &&& t[c].kind == "object_creation_expression"@ ==> construction_found(
                t,
                c,
                node_end(t, c, hi),
                caller,
                package,
                k,
                after,
            )
        }
}

proof fn lemma_body_found(
    t: Seq<NodeView>,
    lo: int,
    hi: int,
    caller: Seq<char>,
    classes: Seq<Seq<char>>,
    f: RelationFacts,
    k: Known,
)
    ensures
        body_found(t, lo, hi, caller, f.package, classes, k, with_body(t, lo, hi, caller, classes, f, k)),
    decreases hi - lo,
{
    if lo < hi {
        let end = node_end(t, lo, hi);
        lemma_call_kept(t, lo, end, caller, classes, f, k);
        lemma_construction_kept(t, lo, end, caller, f, k);
        reveal_strlit("method_invocation");
        reveal_strlit("object_creation_expression");
        assert("method_invocation"@[0] == 'm');
        assert("object_creation_expression"@[0] == 'o');
        let after = if t[lo].kind == "method_invocation"@ {
            with_call(t, lo, end, caller, classes, f, k)
        } else if t[lo].kind == "object_creation_expression"@ {
            with_construction(t, lo, end, caller, f, k)
        } else {
            f
        };
        lemma_body_kept(t, lo + 1, hi, caller, classes, after, k);
        lemma_body_found(t, lo + 1, hi, caller, classes, after, k);
        lemma_call_found_kept(
            t,
            lo,
            end,
            caller,
            f.package,
            classes,
            k,
            after,
            with_body(t, lo, hi, caller, classes, f, k),
        );
    }
}

/// The qualified name of the method or constructor `lo..hi`; a constructor is
/// named by the number of its parameters.
pub open spec fn method_fqn(
    t: Seq<NodeView>,
    lo: int,
    hi: int,
    package: Option<Seq<char>>,
    names: Seq<Seq<char>>,
    n: nat,
) -> Seq<char> {
    dotted(
        package,
        names.push(
            if t[lo].kind == "constructor_declaration"@ {
                "<init>_"@ + decimal_text(n)
            } else {
                text_in_role(t, lo, hi, "name"@)
            },
        ),
    )
}

/// The number of parameters among the siblings in a range.
pub open spec fn parameters_among(t: Seq<NodeView>, lo: int, hi: int) -> nat
    decreases hi - lo,
{
    if lo >= hi {
        0
    } else {
        parameters_among(t, node_end(t, lo, hi), hi) + if t[lo].kind == "formal_parameter"@ || t[lo].kind
            == "spread_parameter"@ {
            1nat
        } else {
            0nat
        }
    }
}

/// The number of parameters of the method or constructor `lo..hi`.
pub open spec fn parameters_of(t: Seq<NodeView>, lo: int, hi: int) -> nat {
    match child_in_role(t, lo, hi, "parameters"@) {
        Some((a, b)) => parameters_among(t, a + 1, b),
        None => 0,
    }
}

proof fn lemma_parameters(t: Seq<NodeView>, lo: int, hi: int)
    ensures
        crate::lift::relation_extractor::count_parameters(t, lo, hi) == parameters_among(t, lo, hi),
    decreases hi - lo,
{
    if lo < hi {
        lemma_parameters(t, node_end(t, lo, hi), hi);
    }
}

/// The method or constructor `lo..hi` is found: what it is declared in, what it
/// throws, its annotations, and the calls and constructions of its body.
pub open spec fn method_found(
    t: Seq<NodeView>,
    lo: int,
    hi: int,
    names: Seq<Seq<char>>,
    package: Option<Seq<char>>,
    k: Known,
    after: RelationFacts,
) -> bool {
    let fqn = method_fqn(t, lo, hi, package, names, parameters_of(t, lo, hi));
    &&& child_in_role(t, lo, hi, "body"@) matches Some((a, b)) ==> body_found(t, a, b, fqn, package, names, k, after)
    &&& lookup(k.ids, fqn) is Some ==> callable_found(t, lo, hi, names, package, k, lookup(k.ids, fqn)->0, after.links)
}

pub open spec fn callable_found(
    t: Seq<NodeView>,
    lo: int,
    hi: int,
    names: Seq<Seq<char>>,
    package: Option<Seq<char>>,
    k: Known,
    from: Seq<char>,
    links: Seq<LinkView>,
) -> bool {
    &&& lookup(k.ids, dotted(package, names)) matches Some(to) ==> is_linked(
        links,
        "java.contained_in"@,
        from,
        to,
        t[lo],
        k.file,
    )
    &&& forall|q: int| #[trigger]
        clause_names(t, lo + 1, hi, "throws"@, q) ==> type_found(
            links,
            "java.throws"@,
            from,
            package,
            k,
            t[q].text,
            t[q],
        )
    &&& annotations_found(t, lo + 1, hi, package, k, from, links)
}

proof fn lemma_method_found(
    t: Seq<NodeView>,
    lo: int,
    hi: int,
    classes: Seq<Seq<char>>,
    f: RelationFacts,
    k: Known,
)
    ensures
        keeps(f, with_method(t, lo, hi, classes, f, k)),
        with_method(t, lo, hi, classes, f, k).package == f.package,
        text_in_role(t, lo, hi, "name"@).len() > 0 ==> method_found(
            t,
            lo,
            hi,
            classes,
            f.package,
            k,
            with_method(t, lo, hi, classes, f, k),
        ),
{
    let fqn = callable_fqn(t, lo, hi, f.package, classes);
    if let Some((a, b)) = child_in_role(t, lo, hi, "parameters"@) {
        lemma_parameters(t, a + 1, b);
    }
    assert(fqn == method_fqn(t, lo, hi, f.package, classes, parameters_of(t, lo, hi)));
    let last = with_method(t, lo, hi, classes, f, k);
    let container = Some(dotted(f.package, classes));
    let head = match lookup(k.ids, fqn) {
        Some(from) => {
            let f1 = with_container(t, lo, container, f, k, from);
            let f2 = with_clauses(t, lo + 1, hi, "throws"@, f1, k, from, JavaRelationType::Throws);
            with_annotations(t, lo + 1, hi, f2, k, from)
        },
        None => f,
    };
    if let Some((a, b)) = child_in_role(t, lo, hi, "body"@) {
        lemma_body_kept(t, a, b, fqn, classes, head, k);
    }
    if let Some(from) = lookup(k.ids, fqn) {
        let f1 = with_container(t, lo, container, f, k, from);
        let f2 = with_clauses(t, lo + 1, hi, "throws"@, f1, k, from, JavaRelationType::Throws);
        lemma_container_kept(t, lo, container, f, k, from);
        lemma_clauses_kept(t, lo + 1, hi, "throws"@, f1, k, from, JavaRelationType::Throws);
        lemma_annotations_kept(t, lo + 1, hi, f2, k, from);
        lemma_annotations_found(t, lo + 1, hi, f2, k, from);
        if text_in_role(t, lo, hi, "name"@).len() > 0 {
            assert(keeps(head, last));
            lemma_linked_kept(f1.links, last.links);
            lemma_linked_kept(f2.links, last.links);
            lemma_linked_kept(head.links, last.links);
            assert forall|q: int| #[trigger] clause_names(t, lo + 1, hi, "throws"@, q) implies type_found(
                last.links,
                "java.throws"@,
                from,
                f.package,
                k,
                t[q].text,
                t[q],
            ) by {
                lemma_clauses_found(
                    t,
                    lo + 1,
                    hi,
                    "throws"@,
                    f1,
                    k,
                    from,
                    JavaRelationType::Throws,
                    "java.throws"@,
                    q,
                );
            }
            assert(callable_found(t, lo, hi, classes, f.package, k, from, last.links));
        }
    }
    if let Some((a, b)) = child_in_role(t, lo, hi, "body"@) {
        lemma_body_found(t, a, b, fqn, classes, head, k);
    }
}

/// The import at `lo`, made inside a type, is found.
pub open spec fn import_found(
    t: Seq<NodeView>,
    lo: int,
    names: Seq<Seq<char>>,
    package: Option<Seq<char>>,
    k: Known,
    links: Seq<LinkView>,
) -> bool {
    names.len() > 0 && !ends(imported(t[lo].text), ".*"@) ==> forall|from: Seq<char>, to: Seq<char>|
        lookup(k.ids, dotted(package, names)) == Some(from) && lookup(k.ids, imported(t[lo].text)) == Some(to)
            ==> #[trigger] is_linked(links, "java.imports"@, from, to, t[lo], k.file)
}

proof fn lemma_import_found(t: Seq<NodeView>, lo: int, classes: Seq<Seq<char>>, f: RelationFacts, k: Known)
    ensures
        keeps(f, with_import(t, lo, classes, f, k)),
        with_import(t, lo, classes, f, k).package == f.package,
        import_found(t, lo, classes, f.package, k, with_import(t, lo, classes, f, k).links),
{
    let target = imported(t[lo].text);
    if let (Some(from), Some(to)) = (lookup(k.ids, dotted(f.package, classes)), lookup(k.ids, target)) {
        let w = witness_of(t[lo], k.file);
        lemma_related(f, k, JavaRelationType::Imports, from, to, w);
        let after = related(f, k, JavaRelationType::Imports, from, to, w);
        assert(is_link(after.links.last(), "java.imports"@, from, to, t[lo], k.file));
        assert(is_linked(after.links, "java.imports"@, from, to, t[lo], k.file));
    }
}

/// The last plain or dotted name among the siblings in a range.
pub open spec fn package_name(t: Seq<NodeView>, lo: int, hi: int, before: Option<Seq<char>>) -> Option<Seq<char>>
    decreases hi - lo,
{
    if lo >= hi {
        before
    } else {
        package_name(
            t,
            node_end(t, lo, hi),
            hi,
            if t[lo].kind == "identifier"@ || t[lo].kind == "scoped_identifier"@ {
                Some(t[lo].text)
            } else {
                before
            },
        )
    }
}

proof fn lemma_package_name(t: Seq<NodeView>, lo: int, hi: int, before: Option<Seq<char>>)
    ensures
        last_name(t, lo, hi, before) == package_name(t, lo, hi, before),
    decreases hi - lo,
{
    if lo < hi {
        lemma_package_name(t, node_end(t, lo, hi), hi, before);
        lemma_package_name(t, node_end(t, lo, hi), hi, Some(t[lo].text));
    }
}

/// The node is the body of a type that the declaration declares.
pub open spec fn is_body_of(declaration: NodeView, body: NodeView) -> bool {
    ||| declaration.kind == "class_declaration"@ && body.kind == "class_body"@
    ||| declaration.kind == "interface_declaration"@ && body.kind == "interface_body"@
    ||| declaration.kind == "enum_declaration"@ && body.kind == "enum_body"@
    ||| declaration.kind == "record_declaration"@ && body.kind == "record_declaration_body"@
}

/// The package that is in force behind a range.
pub open spec fn package_behind(t: Seq<NodeView>, lo: int, hi: int, package: Option<Seq<char>>) -> Option<Seq<char>>
    decreases hi - lo, 0nat,
{
    if lo >= hi {
        package
    } else {
        let end = node_end(t, lo, hi);
        let here = if t[lo].kind == "package_declaration"@ {
            package_name(t, lo + 1, end, package)
        } else if t[lo].kind == "import_declaration"@ || declares_method(t[lo]) {
            package
        } else if declares_type(t[lo]) {
            if text_in_role(t, lo, end, "name"@).len() == 0 {
                package
            } else {
                package_behind_bodies(t, t[lo], lo + 1, end, package)
            }
        } else {
            package_behind(t, lo + 1, end, package)
        };
        package_behind(t, end, hi, here)
    }
}

/// The package that is in force behind the bodies of a declaration in a range.
pub open spec fn package_behind_bodies(
    t: Seq<NodeView>,
    declaration: NodeView,
    lo: int,
    hi: int,
    package: Option<Seq<char>>,
) -> Option<Seq<char>>
    decreases hi - lo, 1nat,
{
    if lo >= hi {
        package
    } else {
        let end = node_end(t, lo, hi);
        package_behind_bodies(
            t,
            declaration,
            end,
            hi,
            if is_body_of(declaration, t[lo]) {
                package_behind(t, lo + 1, end, package)
            } else {
                package
            },
        )
    }
}

/// The declaration `p..e` stands in the range `lo..hi`, inside the types `names`
/// and the package `home`; the range itself is inside `classes` and `package`.
pub open spec fn declares(
    t: Seq<NodeView>,
    lo: int,
    hi: int,
    classes: Seq<Seq<char>>,
    package: Option<Seq<char>>,
    p: int,
    e: int,
    names: Seq<Seq<char>>,
    home: Option<Seq<char>>,
) -> bool
    decreases hi - lo, 0nat,
{
    lo < hi && {
        let end = node_end(t, lo, hi);
        let name = text_in_role(t, lo, end, "name"@);
        ||| p == lo && e == end && names == classes && home == package
        ||| declares_type(t[lo]) && name.len() > 0 && body_declares(
            t,
            t[lo],
            lo + 1,
            end,
            classes.push(name),
            package,
            p,
            e,
            names,
            home,
        )
        ||| t[lo].kind != "package_declaration"@ && t[lo].kind != "import_declaration"@ && !declares_type(t[lo])
            && !declares_method(t[lo]) && declares(t, lo + 1, end, classes, package, p, e, names, home)
        ||| declares(t, end, hi, classes, package_behind(t, lo, end, package), p, e, names, home)
    }
}

/// The declaration stands in a body of another among the siblings in a range.
pub open spec fn body_declares(
    t: Seq<NodeView>,
    declaration: NodeView,
    lo: int,
    hi: int,
    classes: Seq<Seq<char>>,
    package: Option<Seq<char>>,
    p: int,
    e: int,
    names: Seq<Seq<char>>,
    home: Option<Seq<char>>,
) -> bool
    decreases hi - lo, 1nat,
{
    lo < hi && {
        let end = node_end(t, lo, hi);
        let next = if is_body_of(declaration, t[lo]) {
            package_behind(t, lo + 1, end, package)
        } else {
            package
        };
        ||| is_body_of(declaration, t[lo]) && declares(t, lo + 1, end, classes, package, p, e, names, home)
        ||| body_declares(t, declaration, end, hi, classes, next, p, e, names, home)
    }
}

/// What the node `lo..hi` adds.
spec fn node_relations(
    t: Seq<NodeView>,
    lo: int,
    hi: int,
    classes: Seq<Seq<char>>,
    f: RelationFacts,
    k: Known,
) -> RelationFacts {
    let name = text_in_role(t, lo, hi, "name"@);
    if t[lo].kind == "package_declaration"@ {
        RelationFacts { package: last_name(t, lo + 1, hi, f.package), ..f }
    } else if t[lo].kind == "import_declaration"@ {
        with_import(t, lo, classes, f, k)
    } else if body_kind(t[lo]) is Some {
        if name.len() == 0 {
            f
        } else {
            relations_in_bodies(
                t,
                lo + 1,
                hi,
                body_kind(t[lo])->0,
                classes.push(name),
                with_type_head(t, lo, hi, classes, f, k),
                k,
            )
        }
    } else if t[lo].kind == "method_declaration"@ || t[lo].kind == "constructor_declaration"@ {
        with_method(t, lo, hi, classes, f, k)
    } else {
        relations_in(t, lo + 1, hi, classes, f, k)
    }
}

proof fn lemma_kinds()
    ensures
        "package_declaration"@ != "class_declaration"@,
        "package_declaration"@ != "interface_declaration"@,
        "package_declaration"@ != "enum_declaration"@,
        "package_declaration"@ != "record_declaration"@,
        "package_declaration"@ != "method_declaration"@,
        "package_declaration"@ != "constructor_declaration"@,
        "package_declaration"@ != "import_declaration"@,
        "import_declaration"@ != "class_declaration"@,
        "import_declaration"@ != "interface_declaration"@,
        "import_declaration"@ != "enum_declaration"@,
        "import_declaration"@ != "record_declaration"@,
        "import_declaration"@ != "method_declaration"@,
        "import_declaration"@ != "constructor_declaration"@,
        "method_declaration"@ != "class_declaration"@,
        "method_declaration"@ != "interface_declaration"@,
        "method_declaration"@ != "enum_declaration"@,
        "method_declaration"@ != "record_declaration"@,
        "constructor_declaration"@ != "class_declaration"@,
        "constructor_declaration"@ != "interface_declaration"@,
        "constructor_declaration"@ != "enum_declaration"@,
        "constructor_declaration"@ != "record_declaration"@,
        "class_declaration"@ != "interface_declaration"@,
        "class_declaration"@ != "enum_declaration"@,
        "class_declaration"@ != "record_declaration"@,
        "interface_declaration"@ != "enum_declaration"@,
        "interface_declaration"@ != "record_declaration"@,
        "enum_declaration"@ != "record_declaration"@,
{
    reveal_strlit("package_declaration");
    reveal_strlit("import_declaration");
    reveal_strlit("class_declaration");
    reveal_strlit("interface_declaration");
    reveal_strlit("enum_declaration");
    reveal_strlit("record_declaration");
    reveal_strlit("method_declaration");
    reveal_strlit("constructor_declaration");
    assert("package_declaration"@[0] == 'p');
    assert("import_declaration"@[1] == 'm');
    assert("class_declaration"@[1] == 'l');
    assert("interface_declaration"@[1] == 'n');
    assert("enum_declaration"@[0] == 'e');
    assert("record_declaration"@[0] == 'r');
    assert("method_declaration"@[0] == 'm');
    assert("constructor_declaration"@[1] == 'o');
    assert("import_declaration"@[0] == 'i');
    assert("class_declaration"@[0] == 'c');
    assert("interface_declaration"@[0] == 'i');
    assert("constructor_declaration"@[0] == 'c');
}

proof fn lemma_relations_kept(
    t: Seq<NodeView>,
    lo: int,
    hi: int,
    classes: Seq<Seq<char>>,
    f: RelationFacts,
    k: Known,
)
    ensures
        keeps(f, relations_in(t, lo, hi, classes, f, k)),
        relations_in(t, lo, hi, classes, f, k).package == package_behind(t, lo, hi, f.package),
    decreases hi - lo, 0nat,
{
    if lo < hi {
        let end = node_end(t, lo, hi);
        let name = text_in_role(t, lo, end, "name"@);
        let after = node_relations(t, lo, end, classes, f, k);
        lemma_kinds();
        if t[lo].kind == "package_declaration"@ {
            lemma_package_name(t, lo + 1, end, f.package);
        } else if t[lo].kind == "import_declaration"@ {
            lemma_import_found(t, lo, classes, f, k);
        } else if body_kind(t[lo]) is Some {
            let head = with_type_head(t, lo, end, classes, f, k);
            lemma_head_found(t, lo, end, classes, f, k);
            lemma_bodies_kept(t, t[lo], lo + 1, end, classes.push(name), head, k);
        } else if declares_method(t[lo]) {
            lemma_method_found(t, lo, end, classes, f, k);
        } else {
            lemma_relations_kept(t, lo + 1, end, classes, f, k);
        }
        assert(keeps(f, after));
        lemma_relations_kept(t, end, hi, classes, after, k);
    }
}

proof fn lemma_bodies_kept(
    t: Seq<NodeView>,
    declaration: NodeView,
    lo: int,
    hi: int,
    classes: Seq<Seq<char>>,
    f: RelationFacts,
    k: Known,
)
    requires
        body_kind(declaration) is Some,
    ensures
        keeps(f, relations_in_bodies(t, lo, hi, body_kind(declaration)->0, classes, f, k)),
        relations_in_bodies(t, lo, hi, body_kind(declaration)->0, classes, f, k).package == package_behind_bodies(
            t,
            declaration,
            lo,
            hi,
            f.package,
        ),
    decreases hi - lo, 1nat,
{
    if lo < hi {
        let end = node_end(t, lo, hi);
        lemma_kinds();
        lemma_relations_kept(t, lo + 1, end, classes, f, k);
        let after = if is_body_of(declaration, t[lo]) {
            relations_in(t, lo + 1, end, classes, f, k)
        } else {
            f
        };
        lemma_bodies_kept(t, declaration, end, hi, classes, after, k);
    }
}

/// What is found in a range holds what the declarations in it add.
proof fn lemma_declared(
    t: Seq<NodeView>,
    lo: int,
    hi: int,
    classes: Seq<Seq<char>>,
    f: RelationFacts,
    k: Known,
    p: int,
    e: int,
    names: Seq<Seq<char>>,
    home: Option<Seq<char>>,
) -> (at: RelationFacts)
    requires
        declares(t, lo, hi, classes, f.package, p, e, names, home),
    ensures
        at.package == home,
        keeps(node_relations(t, p, e, names, at, k), relations_in(t, lo, hi, classes, f, k)),
    decreases hi - lo, 0nat,
{
    let end = node_end(t, lo, hi);
    let name = text_in_role(t, lo, end, "name"@);
    let after = node_relations(t, lo, end, classes, f, k);
    let all = relations_in(t, lo, hi, classes, f, k);
    lemma_kinds();
    assert(all == relations_in(t, end, hi, classes, after, k));
    lemma_relations_kept(t, end, hi, classes, after, k);
    assert(after.package == package_behind(t, lo, end, f.package)) by {
        let one = relations_in(t, lo, end, classes, f, k);
        lemma_relations_kept(t, lo, end, classes, f, k);
        lemma_node_alone(t, lo, hi);
        assert(one == relations_in(t, end, end, classes, after, k));
    }
    if p == lo && e == end && names == classes && home == f.package {
        f
    } else if declares(t, end, hi, classes, package_behind(t, lo, end, f.package), p, e, names, home) {
        lemma_declared(t, end, hi, classes, after, k, p, e, names, home)
    } else if declares_type(t[lo]) {
        let head = with_type_head(t, lo, end, classes, f, k);
        lemma_head_found(t, lo, end, classes, f, k);
        lemma_body_declared(t, t[lo], lo + 1, end, classes.push(name), head, k, p, e, names, home)
    } else {
        lemma_declared(t, lo + 1, end, classes, f, k, p, e, names, home)
    }
}

/// A node ends where it ends in its own range.
proof fn lemma_node_alone(t: Seq<NodeView>, lo: int, hi: int)
    requires
        lo < hi,
    ensures
        node_end(t, lo, node_end(t, lo, hi)) == node_end(t, lo, hi),
{
    lemma_level(t, t[lo].depth, lo + 1, hi);
}

proof fn lemma_level(t: Seq<NodeView>, depth: u32, from: int, hi: int)
    requires
        from <= hi,
    ensures
        from <= crate::lift::syntax::level_end(t, depth, from, hi) <= hi,
        crate::lift::syntax::level_end(t, depth, from, crate::lift::syntax::level_end(t, depth, from, hi))
            == crate::lift::syntax::level_end(t, depth, from, hi),
    decreases hi - from,
{
    if from < hi && t[from].depth > depth {
        lemma_level(t, depth, from + 1, hi);
    }
}

proof fn lemma_body_declared(
    t: Seq<NodeView>,
    declaration: NodeView,
    lo: int,
    hi: int,
    classes: Seq<Seq<char>>,
    f: RelationFacts,
    k: Known,
    p: int,
    e: int,
    names: Seq<Seq<char>>,
    home: Option<Seq<char>>,
) -> (at: RelationFacts)
    requires
        body_kind(declaration) is Some,
        body_declares(t, declaration, lo, hi, classes, f.package, p, e, names, home),
    ensures
        at.package == home,
        keeps(
            node_relations(t, p, e, names, at, k),
            relations_in_bodies(t, lo, hi, body_kind(declaration)->0, classes, f, k),
        ),
    decreases hi - lo, 1nat,
{
    let end = node_end(t, lo, hi);
    lemma_kinds();
    lemma_relations_kept(t, lo + 1, end, classes, f, k);
    let after = if is_body_of(declaration, t[lo]) {
        relations_in(t, lo + 1, end, classes, f, k)
    } else {
        f
    };
    lemma_bodies_kept(t, declaration, end, hi, classes, after, k);
    if is_body_of(declaration, t[lo]) && declares(t, lo + 1, end, classes, f.package, p, e, names, home) {
        lemma_declared(t, lo + 1, end, classes, f, k, p, e, names, home)
    } else {
        lemma_body_declared(t, declaration, end, hi, classes, after, k, p, e, names, home)
    }
}

/// What is known when the relations of a file of a lifted project are looked for.
pub open spec fn known_in(view: SpaceView, file: Seq<char>, resolved: Seq<(Seq<char>, Seq<char>)>) -> Known {
    Known { space: view.id, file, ids: view.index, resolved }
}

/// What was found in a file is in the space.
pub open spec fn is_part_of(f: RelationFacts, view: SpaceView) -> bool {
    &&& forall|l: LinkView| f.links.contains(l) ==> #[trigger] view.links.contains(l)
    &&& forall|u: OpenRelation| #[trigger]
        f.unresolved.contains(u) ==> view.unresolved.contains(
            UnresolvedView {
                relation_type: u.relation_type,
                from_fqn: u.from_fqn,
                target_text: u.target_text,
                file: u.witness.file,
                line: u.witness.start_line,
            },
        )
}

proof fn lemma_pass_kept(sources: Seq<SourceView>, k: Known, start: int, m: int, n: int)
    requires
        0 <= m <= n <= sources.len(),
    ensures
        forall|l: LinkView|
            relation_pass(sources, k, start, m).links.contains(l) ==> #[trigger] relation_pass(
                sources,
                k,
                start,
                n,
            ).links.contains(l),
        forall|u: UnresolvedView|
            relation_pass(sources, k, start, m).unresolved.contains(u) ==> #[trigger] relation_pass(
                sources,
                k,
                start,
                n,
            ).unresolved.contains(u),
    decreases n,
{
    if m < n {
        lemma_pass_kept(sources, k, start, m, n - 1);
        let before = relation_pass(sources, k, start, n - 1);
        let s = sources[n - 1];
        if let Ok(t) = parsed(s) {
            let own = Known { file: s.rel_path, ..k };
            let f = relations_in(t, 0, t.len() as int, Seq::empty(), no_relations(before.count), own);
            lemma_plus_contains(before.links, f.links);
            lemma_plus_contains(
                before.unresolved,
                f.unresolved.map_values(|u: OpenRelation| unresolved_record(u)),
            );
        }
    }
}

/// The relations that the declarations of a file state are in the lifted space.
pub proof fn law_declarations_lifted(
    sources: Seq<SourceView>,
    space: Seq<char>,
    label: Seq<char>,
    resolved: Seq<(Seq<char>, Seq<char>)>,
    s: int,
    t: Seq<NodeView>,
    p: int,
    e: int,
    names: Seq<Seq<char>>,
    home: Option<Seq<char>>,
) -> (f: RelationFacts)
    requires
        0 <= s < sources.len(),
        parsed(sources[s]) == Ok::<Seq<NodeView>, Seq<char>>(t),
        declares(t, 0, t.len() as int, Seq::empty(), None, p, e, names, home),
    ensures
        is_part_of(f, lifted(sources, space, label, resolved).space),
        ({
            let k = known_in(lifted(sources, space, label, resolved).space, sources[s].rel_path, resolved);
            let name = text_in_role(t, p, e, "name"@);
            &&& t[p].kind == "import_declaration"@ ==> import_found(t, p, names, home, k, f.links)
            &&& declares_type(t[p]) && name.len() > 0 ==> (lookup(
                k.ids,
                dotted(home, names.push(name)),
            ) matches Some(from) ==> head_found(t, p, e, names, home, k, from, f.links))
            &&& declares_method(t[p]) && name.len() > 0 ==> method_found(t, p, e, names, home, k, f)
        }),
{
    let view = lifted(sources, space, label, resolved).space;
    let n = sources.len() as int;
    let first = entity_pass(sources, space, n);
    let base = known_after(first, space, resolved);
    let before = relation_pass(sources, base, first.count, s);
    let k = Known { file: sources[s].rel_path, ..base };
    assert(k =~= known_in(view, sources[s].rel_path, resolved));
    let all = relations_in(t, 0, t.len() as int, Seq::empty(), no_relations(before.count), k);
    let at = lemma_declared(
        t,
        0,
        t.len() as int,
        Seq::empty(),
        no_relations(before.count),
        k,
        p,
        e,
        names,
        home,
    );
    let f = node_relations(t, p, e, names, at, k);
    let next = relation_pass(sources, base, first.count, s + 1);
    let opened = all.unresolved.map_values(|u: OpenRelation| unresolved_record(u));
    lemma_plus_contains(before.links, all.links);
    lemma_plus_contains(before.unresolved, opened);
    lemma_pass_kept(sources, base, first.count, s + 1, n);
    assert(is_part_of(f, view)) by {
        assert forall|u: OpenRelation| #[trigger] f.unresolved.contains(u) implies view.unresolved.contains(
            unresolved_record(u),
        ) by {
            assert(all.unresolved.contains(u));
            let i = choose|i: int| 0 <= i < all.unresolved.len() && all.unresolved[i] == u;
            assert(opened[i] == unresolved_record(u));
            assert(opened.contains(unresolved_record(u)));
            assert(next.unresolved.contains(unresolved_record(u)));
        }
        assert forall|l: LinkView| f.links.contains(l) implies #[trigger] view.links.contains(l) by {
            assert(all.links.contains(l));
            assert(next.links.contains(l));
        }
    }
    lemma_kinds();
    if t[p].kind == "import_declaration"@ {
        lemma_import_found(t, p, names, at, k);
    } else if declares_type(t[p]) {
        let name = text_in_role(t, p, e, "name"@);
        lemma_head_found(t, p, e, names, at, k);
        let head = with_type_head(t, p, e, names, at, k);
        if name.len() > 0 {
            lemma_bodies_kept(t, t[p], p + 1, e, names.push(name), head, k);
            if let Some(from) = lookup(k.ids, dotted(home, names.push(name))) {
                lemma_head_kept(t, p, e, names, home, k, from, head.links, f.links);
            }
        }
    } else if declares_method(t[p]) {
        lemma_method_found(t, p, e, names, at, k);
    }
    f
}

proof fn lemma_head_kept(
    t: Seq<NodeView>,
    lo: int,
    hi: int,
    names: Seq<Seq<char>>,
    package: Option<Seq<char>>,
    k: Known,
    from: Seq<char>,
    a: Seq<LinkView>,
    b: Seq<LinkView>,
)
    requires
        head_found(t, lo, hi, names, package, k, from, a),
        forall|l: LinkView| a.contains(l) ==> #[trigger] b.contains(l),
    ensures
        head_found(t, lo, hi, names, package, k, from, b),
{
    lemma_linked_kept(a, b);
    assert(annotations_found(t, lo + 1, hi, package, k, from, b)) by {
        assert forall|q: int|
            #[trigger] stands_among(t, lo + 1, hi, q) && (t[q].kind == "marker_annotation"@ || t[q].kind
                == "annotation"@) implies (child_in_role(t, q, node_end(t, q, hi), "name"@) matches Some((x, _))
            ==> type_found(b, "java.annotated_with"@, from, package, k, t[x].text, t[q])) by {
            if let Some((x, _)) = child_in_role(t, q, node_end(t, q, hi), "name"@) {
                assert(type_found(a, "java.annotated_with"@, from, package, k, t[x].text, t[q]));
            }
        }
    }
}

/// Where a method of a known name calls a member of an object, no language
/// server has an answer for the call, and the member is known in the package of
/// the method, the lifted space holds the call.
pub proof fn law_call_in_package(
    sources: Seq<SourceView>,
    space: Seq<char>,
    label: Seq<char>,
    resolved: Seq<(Seq<char>, Seq<char>)>,
    s: int,
    t: Seq<NodeView>,
    p: int,
    e: int,
    names: Seq<Seq<char>>,
    package: Seq<char>,
    body: (int, int),
    c: int,
    object: Seq<char>,
    from: Seq<char>,
    to: Seq<char>,
)
    requires
        0 <= s < sources.len(),
        parsed(sources[s]) == Ok::<Seq<NodeView>, Seq<char>>(t),
        declares(t, 0, t.len() as int, Seq::empty(), None, p, e, names, Some(package)),
        t[p].kind == "method_declaration"@,
        text_in_role(t, p, e, "name"@).len() > 0,
        child_in_role(t, p, e, "body"@) == Some(body),
        body.0 <= c < body.1,
        t[c].kind == "method_invocation"@,
        object_of(t, c, node_end(t, c, body.1)) == Some(object),
        text_in_role(t, c, node_end(t, c, body.1), "name"@).len() > 0,
        lookup(resolved, object + "."@ + text_in_role(t, c, node_end(t, c, body.1), "name"@)) is None,
        lookup(
            lifted(sources, space, label, resolved).space.index,
            dotted(Some(package), names.push(text_in_role(t, p, e, "name"@))),
        ) == Some(from),
        lookup(
            lifted(sources, space, label, resolved).space.index,
            package + "."@ + object + "."@ + text_in_role(t, c, node_end(t, c, body.1), "name"@),
        ) == Some(to),
    ensures
        is_linked(
            lifted(sources, space, label, resolved).space.links,
            "java.calls"@,
            from,
            to,
            t[c],
            sources[s].rel_path,
        ),
{
    let view = lifted(sources, space, label, resolved).space;
    let k = known_in(view, sources[s].rel_path, resolved);
    let f = law_declarations_lifted(sources, space, label, resolved, s, t, p, e, names, Some(package));
    lemma_kinds();
    let end = node_end(t, c, body.1);
    let name = text_in_role(t, c, end, "name"@);
    let caller = dotted(Some(package), names.push(text_in_role(t, p, e, "name"@)));
    reveal_strlit("method_declaration");
    reveal_strlit("constructor_declaration");
    assert("method_declaration"@[0] == 'm');
    assert("constructor_declaration"@[0] == 'c');
    assert(caller == method_fqn(t, p, e, Some(package), names, parameters_of(t, p, e)));
    assert(body_found(t, body.0, body.1, caller, Some(package), names, k, f));
    assert(t[c].kind == "method_invocation"@);
    assert(call_found(t, c, end, caller, Some(package), names, k, f));
    let fqn = package + "."@ + object + "."@ + name;
    assert(called(Some(package), names, k, Some(object), name, fqn));
    assert(lookup(k.ids, fqn) == Some(to));
    assert(is_linked(f.links, "java.calls"@, from, to, t[c], k.file));
    lemma_linked_kept(f.links, view.links);
}

} // verus!
