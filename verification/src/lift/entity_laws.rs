//! What is declared in a source is found as an entity.

use vstd::prelude::*;

use crate::lift::entity_extractor::{
    declared_kind, entities_in, entities_in_bodies, fqn_in, parameter_types, types_of, with_callable, with_constant,
    with_entity, with_fields, with_package, witness_of, EntityExtractor, EntityFacts, Origin,
};
use crate::lift::lifter::{all_cells, all_names, entity_pass, lifted, parsed, with_entries, SourceView};
use crate::lift::outcome_laws::dotted;
use crate::lift::relation_laws::stands_among;
use crate::lift::syntax::{child_in_role, level_end, node_end, text_in_role, NodeView};
use crate::lines::trimmed;
use crate::model::entity::JavaEntityType;
use crate::model::graph::CellView;
use crate::seqs::{lemma_plus_contains, lemma_push_contains};
use crate::text::{decimal_text, joined};
use crate::text_map::{key_position, lemma_key_position, lemma_other_key, lemma_with_entry, lookup, with_entry};

verus! {

/// A cell for what a node of a file declares.
pub open spec fn is_cell(
    c: CellView,
    cell_type: Seq<char>,
    label: Seq<char>,
    space: Seq<char>,
    n: NodeView,
    file: Seq<char>,
) -> bool {
    &&& c.cell_type == cell_type
    &&& c.label == Some(label)
    &&& c.space_id == space
    &&& c.provenance matches Some(p) && p.title == Some(trimmed(file)) && p.uri == Some(
        trimmed(
            file + "#L"@ + decimal_text(((n.start_row + 1) as u32) as nat) + "-L"@ + decimal_text(
                ((n.end_row + 1) as u32) as nat,
            ),
        ),
    )
}

/// The cell is among those found, and the name leads to a cell.
pub open spec fn is_found(
    cells: Seq<CellView>,
    ids: Seq<(Seq<char>, Seq<char>)>,
    cell_type: Seq<char>,
    fqn: Seq<char>,
    label: Seq<char>,
    space: Seq<char>,
    n: NodeView,
    file: Seq<char>,
) -> bool {
    &&& lookup(ids, fqn) is Some
    &&& exists|c: CellView| #[trigger] cells.contains(c) && is_cell(c, cell_type, label, space, n, file)
}

/// What was found before is still found.
pub open spec fn stays(
    cells: Seq<CellView>,
    ids: Seq<(Seq<char>, Seq<char>)>,
    more: Seq<CellView>,
    others: Seq<(Seq<char>, Seq<char>)>,
) -> bool {
    &&& forall|c: CellView| cells.contains(c) ==> #[trigger] more.contains(c)
    &&& forall|x: Seq<char>| lookup(ids, x) is Some ==> #[trigger] lookup(others, x) is Some
}

pub open spec fn keeps(f: EntityFacts, after: EntityFacts) -> bool {
    stays(f.cells, f.ids, after.cells, after.ids)
}

proof fn lemma_entry(map: Seq<(Seq<char>, Seq<char>)>, key: Seq<char>, value: Seq<char>)
    ensures
        lookup(with_entry(map, key, value), key) is Some,
        forall|x: Seq<char>| lookup(map, x) is Some ==> #[trigger] lookup(with_entry(map, key, value), x) is Some,
{
    lemma_with_entry(map, key, value);
    assert forall|x: Seq<char>| lookup(map, x) is Some implies #[trigger] lookup(
        with_entry(map, key, value),
        x,
    ) is Some by {
        if x != key {
            lemma_other_key(map, key, value, x);
        }
    }
}

proof fn lemma_entity(
    f: EntityFacts,
    from: Origin,
    entity_type: JavaEntityType,
    cell_type: Seq<char>,
    fqn: Seq<char>,
    label: Seq<char>,
    n: NodeView,
)
    requires
        cell_type == crate::model::entity::cell_type_of(entity_type),
    ensures
        ({
            let after = with_entity(f, from, entity_type, fqn, label, witness_of(n, from.file));
            &&& keeps(f, after)
            &&& after.package == f.package
            &&& is_found(after.cells, after.ids, cell_type, fqn, label, from.space, n, from.file)
        }),
{
    let after = with_entity(f, from, entity_type, fqn, label, witness_of(n, from.file));
    lemma_push_contains(f.cells, after.cells.last());
    assert(after.cells =~= f.cells.push(after.cells.last()));
    assert(after.cells.contains(after.cells.last()));
    lemma_entry(f.ids, fqn, after.cells.last().id);
    assert(is_cell(after.cells.last(), cell_type, label, from.space, n, from.file));
}

/// What is found stays found.
proof fn lemma_found_kept(
    cells: Seq<CellView>,
    ids: Seq<(Seq<char>, Seq<char>)>,
    more: Seq<CellView>,
    others: Seq<(Seq<char>, Seq<char>)>,
)
    requires
        stays(cells, ids, more, others),
    ensures
        forall|cell_type: Seq<char>, fqn: Seq<char>, label: Seq<char>, space: Seq<char>, n: NodeView, file: Seq<char>|
            is_found(cells, ids, cell_type, fqn, label, space, n, file) ==> #[trigger] is_found(
                more,
                others,
                cell_type,
                fqn,
                label,
                space,
                n,
                file,
            ),
{
    assert forall|cell_type: Seq<char>, fqn: Seq<char>, label: Seq<char>, space: Seq<char>, n: NodeView, file: Seq<char>|
        is_found(cells, ids, cell_type, fqn, label, space, n, file) implies #[trigger] is_found(
        more,
        others,
        cell_type,
        fqn,
        label,
        space,
        n,
        file,
    ) by {
        let c = choose|c: CellView| #[trigger] cells.contains(c) && is_cell(c, cell_type, label, space, n, file);
        assert(more.contains(c));
        assert(lookup(others, fqn) is Some);
    }
}

/// The node declares a type of the cell type.
pub open spec fn type_declared(n: NodeView, cell_type: Seq<char>) -> bool {
    ||| n.kind == "class_declaration"@ && cell_type == "java.class"@
    ||| n.kind == "interface_declaration"@ && cell_type == "java.interface"@
    ||| n.kind == "enum_declaration"@ && cell_type == "java.enum"@
    ||| n.kind == "record_declaration"@ && cell_type == "java.record"@
    ||| n.kind == "annotation_type_declaration"@ && cell_type == "java.annotation"@
}

pub open spec fn is_type(n: NodeView) -> bool {
    n.kind == "class_declaration"@ || n.kind == "interface_declaration"@ || n.kind == "enum_declaration"@ || n.kind
        == "record_declaration"@ || n.kind == "annotation_type_declaration"@
}

pub open spec fn is_body(n: NodeView) -> bool {
    n.kind == "class_body"@ || n.kind == "interface_body"@ || n.kind == "enum_body"@ || n.kind
        == "record_declaration_body"@ || n.kind == "annotation_type_body"@
}

/// The node declares something other than a type that is not looked into.
pub open spec fn is_member(n: NodeView) -> bool {
    n.kind == "method_declaration"@ || n.kind == "constructor_declaration"@ || n.kind == "field_declaration"@ || n.kind
        == "enum_constant"@
}

/// The first plain or dotted name among the siblings in a range.
pub open spec fn first_name(t: Seq<NodeView>, lo: int, hi: int) -> Option<Seq<char>>
    decreases hi - lo,
{
    if lo >= hi {
        None
    } else if t[lo].kind == "identifier"@ || t[lo].kind == "scoped_identifier"@ {
        Some(t[lo].text)
    } else {
        first_name(t, node_end(t, lo, hi), hi)
    }
}

/// The package that is in force behind a range.
pub open spec fn package_behind(t: Seq<NodeView>, lo: int, hi: int, package: Option<Seq<char>>) -> Option<Seq<char>>
    decreases hi - lo, 0nat,
{
    if lo >= hi {
        package
    } else {
        let end = node_end(t, lo, hi);
        let here = if t[lo].kind == "package_declaration"@ {
            match first_name(t, lo + 1, end) {
                Some(name) => Some(name),
                None => package,
            }
        } else if is_type(t[lo]) {
            if text_in_role(t, lo, end, "name"@).len() == 0 {
                package
            } else {
                package_behind_bodies(t, lo + 1, end, package)
            }
        } else if is_member(t[lo]) {
            package
        } else {
            package_behind(t, lo + 1, end, package)
        };
        package_behind(t, end, hi, here)
    }
}

pub open spec fn package_behind_bodies(
    t: Seq<NodeView>,
    lo: int,
    hi: int,
    package: Option<Seq<char>>,
) -> Option<Seq<char>>
    decreases hi - lo, 1nat,
{
    if lo >= hi {
        package
    } else {
        let end = node_end(t, lo, hi);
        package_behind_bodies(
            t,
            end,
            hi,
            if is_body(t[lo]) {
                package_behind(t, lo + 1, end, package)
            } else {
                package
            },
        )
    }
}

/// The declaration `p..e` stands in the range `lo..hi`, inside the types `names`
/// and the package `home`; the range itself is inside `classes` and `package`.
pub open spec fn declares(
    t: Seq<NodeView>,
    lo: int,
    hi: int,
    classes: Seq<Seq<char>>,
    package: Option<Seq<char>>,
    p: int,
    e: int,
    names: Seq<Seq<char>>,
    home: Option<Seq<char>>,
) -> bool
    decreases hi - lo, 0nat,
{
    lo < hi && {
        let end = node_end(t, lo, hi);
        let name = text_in_role(t, lo, end, "name"@);
        ||| p == lo && e == end && names == classes && home == package
        ||| is_type(t[lo]) && name.len() > 0 && body_declares(
            t,
            lo + 1,
            end,
            classes.push(name),
            package,
            p,
            e,
            names,
            home,
        )
        ||| t[lo].kind != "package_declaration"@ && !is_type(t[lo]) && !is_member(t[lo]) && declares(
            t,
            lo + 1,
            end,
            classes,
            package,
            p,
            e,
            names,
            home,
        )
        ||| declares(t, end, hi, classes, package_behind(t, lo, end, package), p, e, names, home)
    }
}

pub open spec fn body_declares(
    t: Seq<NodeView>,
    lo: int,
    hi: int,
    classes: Seq<Seq<char>>,
    package: Option<Seq<char>>,
    p: int,
    e: int,
    names: Seq<Seq<char>>,
    home: Option<Seq<char>>,
) -> bool
    decreases hi - lo, 1nat,
{
    lo < hi && {
        let end = node_end(t, lo, hi);
        let next = if is_body(t[lo]) {
            package_behind(t, lo + 1, end, package)
        } else {
            package
        };
        ||| is_body(t[lo]) && declares(t, lo + 1, end, classes, package, p, e, names, home)
        ||| body_declares(t, end, hi, classes, next, p, e, names, home)
    }
}

proof fn lemma_kinds()
    ensures
        "package_declaration"@ != "class_declaration"@,
        "package_declaration"@ != "interface_declaration"@,
        "package_declaration"@ != "enum_declaration"@,
        "package_declaration"@ != "record_declaration"@,
        "package_declaration"@ != "annotation_type_declaration"@,
        "package_declaration"@ != "method_declaration"@,
        "package_declaration"@ != "constructor_declaration"@,
        "package_declaration"@ != "field_declaration"@,
        "package_declaration"@ != "enum_constant"@,
        "method_declaration"@ != "class_declaration"@,
        "method_declaration"@ != "interface_declaration"@,
        "method_declaration"@ != "enum_declaration"@,
        "method_declaration"@ != "record_declaration"@,
        "method_declaration"@ != "annotation_type_declaration"@,
        "constructor_declaration"@ != "class_declaration"@,
        "constructor_declaration"@ != "interface_declaration"@,
        "constructor_declaration"@ != "enum_declaration"@,
        "constructor_declaration"@ != "record_declaration"@,
        "constructor_declaration"@ != "annotation_type_declaration"@,
        "constructor_declaration"@ != "method_declaration"@,
        "field_declaration"@ != "class_declaration"@,
        "field_declaration"@ != "interface_declaration"@,
        "field_declaration"@ != "enum_declaration"@,
        "field_declaration"@ != "record_declaration"@,
        "field_declaration"@ != "annotation_type_declaration"@,
        "field_declaration"@ != "method_declaration"@,
        "field_declaration"@ != "constructor_declaration"@,
        "enum_constant"@ != "class_declaration"@,
        "enum_constant"@ != "interface_declaration"@,
        "enum_constant"@ != "enum_declaration"@,
        "enum_constant"@ != "record_declaration"@,
        "enum_constant"@ != "annotation_type_declaration"@,
        "enum_constant"@ != "method_declaration"@,
        "enum_constant"@ != "constructor_declaration"@,
        "enum_constant"@ != "field_declaration"@,
        "class_declaration"@ != "interface_declaration"@,
        "class_declaration"@ != "enum_declaration"@,
        "class_declaration"@ != "record_declaration"@,
        "class_declaration"@ != "annotation_type_declaration"@,
        "interface_declaration"@ != "enum_declaration"@,
        "interface_declaration"@ != "record_declaration"@,
        "interface_declaration"@ != "annotation_type_declaration"@,
        "enum_declaration"@ != "record_declaration"@,
        "enum_declaration"@ != "annotation_type_declaration"@,
        "record_declaration"@ != "annotation_type_declaration"@,
{
    reveal_strlit("package_declaration");
    reveal_strlit("class_declaration");
    reveal_strlit("interface_declaration");
    reveal_strlit("enum_declaration");
    reveal_strlit("record_declaration");
    reveal_strlit("annotation_type_declaration");
    reveal_strlit("method_declaration");
    reveal_strlit("constructor_declaration");
    reveal_strlit("field_declaration");
    reveal_strlit("enum_constant");
    assert("package_declaration"@[0] == 'p');
    assert("class_declaration"@[0] == 'c' && "class_declaration"@[1] == 'l');
    assert("interface_declaration"@[0] == 'i');
    assert("enum_declaration"@[0] == 'e' && "enum_declaration"@[5] == 'd');
    assert("record_declaration"@[0] == 'r');
    assert("annotation_type_declaration"@[0] == 'a');
    assert("method_declaration"@[0] == 'm');
    assert("constructor_declaration"@[0] == 'c' && "constructor_declaration"@[1] == 'o');
    assert("field_declaration"@[0] == 'f');
    assert("enum_constant"@[0] == 'e' && "enum_constant"@[5] == 'c');
}

/// What the node `lo..hi` adds.
spec fn node_entities(
    t: Seq<NodeView>,
    lo: int,
    hi: int,
    classes: Seq<Seq<char>>,
    f: EntityFacts,
    from: Origin,
) -> EntityFacts {
    let name = text_in_role(t, lo, hi, "name"@);
    if t[lo].kind == "package_declaration"@ {
        with_package(t, lo, lo + 1, hi, f, from)
    } else if declared_kind(t[lo]) is Some {
        if name.len() == 0 {
            f
        } else {
            entities_in_bodies(
                t,
                lo + 1,
                hi,
                classes.push(name),
                with_entity(
                    f,
                    from,
                    declared_kind(t[lo])->0,
                    fqn_in(f.package, classes, name),
                    name,
                    witness_of(t[lo], from.file),
                ),
                from,
            )
        }
    } else if t[lo].kind == "method_declaration"@ {
        with_callable(t, lo, hi, classes, f, from, false)
    } else if t[lo].kind == "constructor_declaration"@ {
        with_callable(t, lo, hi, classes, f, from, true)
    } else if t[lo].kind == "field_declaration"@ {
        with_fields(t, lo, lo + 1, hi, classes, f, from)
    } else if t[lo].kind == "enum_constant"@ {
        with_constant(t, lo, hi, classes, f, from)
    } else {
        entities_in(t, lo + 1, hi, classes, f, from)
    }
}

proof fn lemma_package(t: Seq<NodeView>, at: int, lo: int, hi: int, f: EntityFacts, from: Origin)
    ensures
        keeps(f, with_package(t, at, lo, hi, f, from)),
        with_package(t, at, lo, hi, f, from).package == match first_name(t, lo, hi) {
            Some(name) => Some(name),
            None => f.package,
        },
        first_name(t, lo, hi) matches Some(name) ==> lookup(with_package(t, at, lo, hi, f, from).ids, name) is Some && (
        lookup(f.ids, name) is None ==> is_found(
            with_package(t, at, lo, hi, f, from).cells,
            with_package(t, at, lo, hi, f, from).ids,
            "java.package"@,
            name,
            name,
            from.space,
            t[at],
            from.file,
        )),
    decreases hi - lo,
{
    if lo < hi {
        lemma_entity(f, from, JavaEntityType::Package, "java.package"@, t[lo].text, t[lo].text, t[at]);
        lemma_package(t, at, node_end(t, lo, hi), hi, f, from);
    }
}

/// The types of the parameters among the siblings in a range.
pub open spec fn typed(t: Seq<NodeView>, lo: int, hi: int) -> Seq<Seq<char>>
    decreases hi - lo,
{
    if lo >= hi {
        Seq::empty()
    } else {
        let end = node_end(t, lo, hi);
        (match child_in_role(t, lo, end, "type"@) {
            Some((a, _)) => if t[lo].kind == "formal_parameter"@ || t[lo].kind == "spread_parameter"@ {
                seq![t[a].text]
            } else {
                Seq::empty()
            },
            None => Seq::empty(),
        }) + typed(t, end, hi)
    }
}

/// The types of the parameters of the method or constructor `lo..hi`.
pub open spec fn signature(t: Seq<NodeView>, lo: int, hi: int) -> Seq<Seq<char>> {
    match child_in_role(t, lo, hi, "parameters"@) {
        Some((a, b)) => typed(t, a + 1, b),
        None => Seq::empty(),
    }
}

proof fn lemma_typed(t: Seq<NodeView>, lo: int, hi: int)
    ensures
        parameter_types(t, lo, hi) == typed(t, lo, hi),
    decreases hi - lo,
{
    if lo < hi {
        let end = node_end(t, lo, hi);
        lemma_typed(t, end, hi);
        assert(Seq::<Seq<char>>::empty() + typed(t, end, hi) =~= typed(t, end, hi));
    }
}

/// The name of what a constructor makes: the number of its parameters tells it
/// from others.
pub open spec fn callable_name(t: Seq<NodeView>, lo: int, hi: int) -> Seq<char> {
    if t[lo].kind == "constructor_declaration"@ {
        "<init>_"@ + decimal_text(signature(t, lo, hi).len())
    } else {
        text_in_role(t, lo, hi, "name"@)
    }
}

proof fn lemma_callable(t: Seq<NodeView>, lo: int, hi: int, classes: Seq<Seq<char>>, f: EntityFacts, from: Origin)
    requires
        t[lo].kind == "method_declaration"@ || t[lo].kind == "constructor_declaration"@,
    ensures
        ({
            let after = with_callable(t, lo, hi, classes, f, from, t[lo].kind == "constructor_declaration"@);
            let name = text_in_role(t, lo, hi, "name"@);
            &&& keeps(f, after)
            &&& after.package == f.package
            &&& name.len() > 0 ==> is_found(
                after.cells,
                after.ids,
                if t[lo].kind == "constructor_declaration"@ {
                    "java.constructor"@
                } else {
                    "java.method"@
                },
                dotted(f.package, classes.push(callable_name(t, lo, hi))),
                name + "("@ + joined(signature(t, lo, hi), ", "@) + ")"@,
                from.space,
                t[lo],
                from.file,
            )
        }),
{
    let name = text_in_role(t, lo, hi, "name"@);
    let types = types_of(t, lo, hi);
    if let Some((a, b)) = child_in_role(t, lo, hi, "parameters"@) {
        lemma_typed(t, a + 1, b);
    }
    assert(types == signature(t, lo, hi));
    let label = name + "("@ + joined(types, ", "@) + ")"@;
    lemma_entity(
        f,
        from,
        JavaEntityType::Constructor,
        "java.constructor"@,
        fqn_in(f.package, classes, "<init>_"@ + decimal_text(types.len())),
        label,
        t[lo],
    );
    lemma_entity(f, from, JavaEntityType::Method, "java.method"@, fqn_in(f.package, classes, name), label, t[lo]);
}

/// Every variable that is declared among the siblings is found as a field.
pub open spec fn fields_found(
    t: Seq<NodeView>,
    at: int,
    lo: int,
    hi: int,
    names: Seq<Seq<char>>,
    package: Option<Seq<char>>,
    cells: Seq<CellView>,
    ids: Seq<(Seq<char>, Seq<char>)>,
    from: Origin,
) -> bool {
    forall|q: int| #[trigger]
        stands_among(t, lo, hi, q) && t[q].kind == "variable_declarator"@ ==> (child_in_role(
            t,
            q,
            node_end(t, q, hi),
            "name"@,
        ) matches Some((a, _)) ==> is_found(
            cells,
            ids,
            "java.field"@,
            dotted(package, names.push(t[a].text)),
            t[a].text,
            from.space,
            t[at],
            from.file,
        ))
}

proof fn lemma_fields(
    t: Seq<NodeView>,
    at: int,
    lo: int,
    hi: int,
    classes: Seq<Seq<char>>,
    f: EntityFacts,
    from: Origin,
)
    ensures
        ({
            let after = with_fields(t, at, lo, hi, classes, f, from);
            &&& keeps(f, after)
            &&& after.package == f.package
            &&& fields_found(t, at, lo, hi, classes, f.package, after.cells, after.ids, from)
        }),
    decreases hi - lo,
{
    if lo < hi {
        let end = node_end(t, lo, hi);
        let last = with_fields(t, at, lo, hi, classes, f, from);
        let next = match child_in_role(t, lo, end, "name"@) {
            Some((a, _)) => if t[lo].kind == "variable_declarator"@ {
                with_entity(
                    f,
                    from,
                    JavaEntityType::Field,
                    fqn_in(f.package, classes, t[a].text),
                    t[a].text,
                    witness_of(t[at], from.file),
                )
            } else {
                f
            },
            None => f,
        };
        if let Some((a, _)) = child_in_role(t, lo, end, "name"@) {
            lemma_entity(
                f,
                from,
                JavaEntityType::Field,
                "java.field"@,
                fqn_in(f.package, classes, t[a].text),
                t[a].text,
                t[at],
            );
        }
        lemma_fields(t, at, end, hi, classes, next, from);
        lemma_found_kept(next.cells, next.ids, last.cells, last.ids);
        assert forall|q: int| #[trigger]
            stands_among(t, lo, hi, q) && t[q].kind == "variable_declarator"@ implies (child_in_role(
            t,
            q,
            node_end(t, q, hi),
            "name"@,
        ) matches Some((a, _)) ==> is_found(
            last.cells,
            last.ids,
            "java.field"@,
            dotted(f.package, classes.push(t[a].text)),
            t[a].text,
            from.space,
            t[at],
            from.file,
        )) by {
            if q != lo {
                assert(stands_among(t, end, hi, q));
            }
        }
    }
}

proof fn lemma_constant(t: Seq<NodeView>, lo: int, hi: int, classes: Seq<Seq<char>>, f: EntityFacts, from: Origin)
    ensures
        ({
            let after = with_constant(t, lo, hi, classes, f, from);
            &&& keeps(f, after)
            &&& after.package == f.package
            &&& child_in_role(t, lo, hi, "name"@) matches Some((a, _)) ==> is_found(
                after.cells,
                after.ids,
                "java.enum_constant"@,
                dotted(f.package, classes.push(t[a].text)),
                t[a].text,
                from.space,
                t[lo],
                from.file,
            )
        }),
{
    if let Some((a, _)) = child_in_role(t, lo, hi, "name"@) {
        lemma_entity(
            f,
            from,
            JavaEntityType::EnumConstant,
            "java.enum_constant"@,
            fqn_in(f.package, classes, t[a].text),
            t[a].text,
            t[lo],
        );
    }
}

proof fn lemma_type(t: Seq<NodeView>, lo: int, hi: int, classes: Seq<Seq<char>>, f: EntityFacts, from: Origin)
    requires
        declared_kind(t[lo]) is Some,
    ensures
        ({
            let name = text_in_role(t, lo, hi, "name"@);
            let after = with_entity(
                f,
                from,
                declared_kind(t[lo])->0,
                fqn_in(f.package, classes, name),
                name,
                witness_of(t[lo], from.file),
            );
            &&& keeps(f, after)
            &&& after.package == f.package
            &&& forall|cell_type: Seq<char>| #[trigger]
                type_declared(t[lo], cell_type) ==> is_found(
                    after.cells,
                    after.ids,
                    cell_type,
                    dotted(f.package, classes.push(name)),
                    name,
                    from.space,
                    t[lo],
                    from.file,
                )
        }),
{
    lemma_kinds();
    let name = text_in_role(t, lo, hi, "name"@);
    let kind = declared_kind(t[lo])->0;
    lemma_entity(
        f,
        from,
        kind,
        crate::model::entity::cell_type_of(kind),
        fqn_in(f.package, classes, name),
        name,
        t[lo],
    );
}

proof fn lemma_kept(t: Seq<NodeView>, lo: int, hi: int, classes: Seq<Seq<char>>, f: EntityFacts, from: Origin)
    ensures
        keeps(f, entities_in(t, lo, hi, classes, f, from)),
        entities_in(t, lo, hi, classes, f, from).package == package_behind(t, lo, hi, f.package),
    decreases hi - lo, 0nat,
{
    if lo < hi {
        let end = node_end(t, lo, hi);
        let name = text_in_role(t, lo, end, "name"@);
        let after = node_entities(t, lo, end, classes, f, from);
        lemma_kinds();
        if t[lo].kind == "package_declaration"@ {
            lemma_package(t, lo, lo + 1, end, f, from);
        } else if declared_kind(t[lo]) is Some {
            lemma_type(t, lo, end, classes, f, from);
            if name.len() > 0 {
                let head = with_entity(
                    f,
                    from,
                    declared_kind(t[lo])->0,
                    fqn_in(f.package, classes, name),
                    name,
                    witness_of(t[lo], from.file),
                );
                lemma_bodies_kept(t, lo + 1, end, classes.push(name), head, from);
            }
        } else if t[lo].kind == "method_declaration"@ || t[lo].kind == "constructor_declaration"@ {
            lemma_callable(t, lo, end, classes, f, from);
        } else if t[lo].kind == "field_declaration"@ {
            lemma_fields(t, lo, lo + 1, end, classes, f, from);
        } else if t[lo].kind == "enum_constant"@ {
            lemma_constant(t, lo, end, classes, f, from);
        } else {
            lemma_kept(t, lo + 1, end, classes, f, from);
        }
        assert(keeps(f, after));
        lemma_kept(t, end, hi, classes, after, from);
    }
}

proof fn lemma_bodies_kept(t: Seq<NodeView>, lo: int, hi: int, classes: Seq<Seq<char>>, f: EntityFacts, from: Origin)
    ensures
        keeps(f, entities_in_bodies(t, lo, hi, classes, f, from)),
        entities_in_bodies(t, lo, hi, classes, f, from).package == package_behind_bodies(t, lo, hi, f.package),
    decreases hi - lo, 1nat,
{
    if lo < hi {
        let end = node_end(t, lo, hi);
        lemma_kept(t, lo + 1, end, classes, f, from);
        let after = if is_body(t[lo]) {
            entities_in(t, lo + 1, end, classes, f, from)
        } else {
            f
        };
        lemma_bodies_kept(t, end, hi, classes, after, from);
    }
}

/// A node ends where it ends in its own range.
proof fn lemma_node_alone(t: Seq<NodeView>, lo: int, hi: int)
    requires
        lo < hi,
    ensures
        node_end(t, lo, node_end(t, lo, hi)) == node_end(t, lo, hi),
{
    lemma_level(t, t[lo].depth, lo + 1, hi);
}

proof fn lemma_level(t: Seq<NodeView>, depth: u32, from: int, hi: int)
    requires
        from <= hi,
    ensures
        from <= level_end(t, depth, from, hi) <= hi,
        level_end(t, depth, from, level_end(t, depth, from, hi)) == level_end(t, depth, from, hi),
    decreases hi - from,
{
    if from < hi && t[from].depth > depth {
        lemma_level(t, depth, from + 1, hi);
    }
}

proof fn lemma_declared(
    t: Seq<NodeView>,
    lo: int,
    hi: int,
    classes: Seq<Seq<char>>,
    f: EntityFacts,
    from: Origin,
    p: int,
    e: int,
    names: Seq<Seq<char>>,
    home: Option<Seq<char>>,
) -> (at: EntityFacts)
    requires
        declares(t, lo, hi, classes, f.package, p, e, names, home),
    ensures
        at.package == home,
        keeps(node_entities(t, p, e, names, at, from), entities_in(t, lo, hi, classes, f, from)),
    decreases hi - lo, 0nat,
{
    let end = node_end(t, lo, hi);
    let name = text_in_role(t, lo, end, "name"@);
    let after = node_entities(t, lo, end, classes, f, from);
    let all = entities_in(t, lo, hi, classes, f, from);
    lemma_kinds();
    assert(all == entities_in(t, end, hi, classes, after, from));
    lemma_kept(t, end, hi, classes, after, from);
    assert(after.package == package_behind(t, lo, end, f.package)) by {
        let one = entities_in(t, lo, end, classes, f, from);
        lemma_kept(t, lo, end, classes, f, from);
        lemma_node_alone(t, lo, hi);
        assert(one == entities_in(t, end, end, classes, after, from));
    }
    if p == lo && e == end && names == classes && home == f.package {
        f
    } else if declares(t, end, hi, classes, package_behind(t, lo, end, f.package), p, e, names, home) {
        lemma_declared(t, end, hi, classes, after, from, p, e, names, home)
    } else if is_type(t[lo]) {
        let head = with_entity(
            f,
            from,
            declared_kind(t[lo])->0,
            fqn_in(f.package, classes, name),
            name,
            witness_of(t[lo], from.file),
        );
        lemma_type(t, lo, end, classes, f, from);
        lemma_body_declared(t, lo + 1, end, classes.push(name), head, from, p, e, names, home)
    } else {
        lemma_declared(t, lo + 1, end, classes, f, from, p, e, names, home)
    }
}

proof fn lemma_body_declared(
    t: Seq<NodeView>,
    lo: int,
    hi: int,
    classes: Seq<Seq<char>>,
    f: EntityFacts,
    from: Origin,
    p: int,
    e: int,
    names: Seq<Seq<char>>,
    home: Option<Seq<char>>,
) -> (at: EntityFacts)
    requires
        body_declares(t, lo, hi, classes, f.package, p, e, names, home),
    ensures
        at.package == home,
        keeps(node_entities(t, p, e, names, at, from), entities_in_bodies(t, lo, hi, classes, f, from)),
    decreases hi - lo, 1nat,
{
    let end = node_end(t, lo, hi);
    lemma_kept(t, lo + 1, end, classes, f, from);
    let after = if is_body(t[lo]) {
        entities_in(t, lo + 1, end, classes, f, from)
    } else {
        f
    };
    lemma_bodies_kept(t, end, hi, classes, after, from);
    if is_body(t[lo]) && declares(t, lo + 1, end, classes, f.package, p, e, names, home) {
        lemma_declared(t, lo + 1, end, classes, f, from, p, e, names, home)
    } else {
        lemma_body_declared(t, end, hi, classes, after, from, p, e, names, home)
    }
}

proof fn lemma_entries_kept(map: Seq<(Seq<char>, Seq<char>)>, more: Seq<(Seq<char>, Seq<char>)>, n: int)
    requires
        0 <= n <= more.len(),
    ensures
        forall|x: Seq<char>| lookup(map, x) is Some ==> #[trigger] lookup(with_entries(map, more, n), x) is Some,
        forall|k: int| 0 <= k < n ==> lookup(with_entries(map, more, n), (#[trigger] more[k]).0) is Some,
    decreases n,
{
    if n > 0 {
        lemma_entries_kept(map, more, n - 1);
        let before = with_entries(map, more, n - 1);
        lemma_entry(before, more[n - 1].0, more[n - 1].1);
    }
}

/// The files found before are still found.
proof fn lemma_facts_kept(sources: Seq<SourceView>, space: Seq<char>, m: int, n: int)
    requires
        0 <= m <= n,
    ensures
        entity_pass(sources, space, m).facts.len() <= entity_pass(sources, space, n).facts.len(),
        forall|i: int|
            0 <= i < entity_pass(sources, space, m).facts.len() ==> entity_pass(sources, space, n).facts[i]
                == #[trigger] entity_pass(sources, space, m).facts[i],
    decreases n,
{
    if m < n {
        lemma_facts_kept(sources, space, m, n - 1);
    }
}

proof fn lemma_all(facts: Seq<EntityFacts>, n: int, i: int)
    requires
        0 <= i < n <= facts.len(),
    ensures
        stays(facts[i].cells, facts[i].ids, all_cells(facts, n), all_names(facts, n)),
    decreases n,
{
    let f = facts[n - 1];
    let names = all_names(facts, n - 1);
    lemma_plus_contains(all_cells(facts, n - 1), f.cells);
    lemma_entries_kept(names, f.ids, f.ids.len() as int);
    if i < n - 1 {
        lemma_all(facts, n - 1, i);
    } else {
        assert forall|x: Seq<char>| lookup(f.ids, x) is Some implies #[trigger] lookup(
            all_names(facts, n),
            x,
        ) is Some by {
            lemma_key_position(f.ids, x);
            let k = key_position(f.ids, x)->Some_0;
            assert(f.ids[k].0 == x);
        }
    }
}

/// What the declaration `p..e` declares is found.
pub open spec fn declaration_found(
    t: Seq<NodeView>,
    p: int,
    e: int,
    names: Seq<Seq<char>>,
    home: Option<Seq<char>>,
    cells: Seq<CellView>,
    ids: Seq<(Seq<char>, Seq<char>)>,
    from: Origin,
) -> bool {
    let name = text_in_role(t, p, e, "name"@);
    &&& t[p].kind == "package_declaration"@ ==> (first_name(t, p + 1, e) matches Some(n) ==> lookup(ids, n) is Some)
    &&& name.len() > 0 ==> forall|cell_type: Seq<char>| #[trigger]
        type_declared(t[p], cell_type) ==> is_found(
            cells,
            ids,
            cell_type,
            dotted(home, names.push(name)),
            name,
            from.space,
            t[p],
            from.file,
        )
    &&& name.len() > 0 && t[p].kind == "method_declaration"@ ==> is_found(
        cells,
        ids,
        "java.method"@,
        dotted(home, names.push(name)),
        name + "("@ + joined(signature(t, p, e), ", "@) + ")"@,
        from.space,
        t[p],
        from.file,
    )
    &&& name.len() > 0 && t[p].kind == "constructor_declaration"@ ==> is_found(
        cells,
        ids,
        "java.constructor"@,
        dotted(home, names.push("<init>_"@ + decimal_text(signature(t, p, e).len()))),
        name + "("@ + joined(signature(t, p, e), ", "@) + ")"@,
        from.space,
        t[p],
        from.file,
    )
    &&& t[p].kind == "field_declaration"@ ==> fields_found(t, p, p + 1, e, names, home, cells, ids, from)
    &&& t[p].kind == "enum_constant"@ ==> (child_in_role(t, p, e, "name"@) matches Some((a, _)) ==> is_found(
        cells,
        ids,
        "java.enum_constant"@,
        dotted(home, names.push(t[a].text)),
        t[a].text,
        from.space,
        t[p],
        from.file,
    ))
}

/// Everything that a file declares is a cell of the lifted space, of its kind
/// and with its label and place, and its qualified name leads to a cell.
pub proof fn law_declarations_found(
    sources: Seq<SourceView>,
    space: Seq<char>,
    label: Seq<char>,
    resolved: Seq<(Seq<char>, Seq<char>)>,
    s: int,
    t: Seq<NodeView>,
    p: int,
    e: int,
    names: Seq<Seq<char>>,
    home: Option<Seq<char>>,
)
    requires
        0 <= s < sources.len(),
        parsed(sources[s]) == Ok::<Seq<NodeView>, Seq<char>>(t),
        declares(t, 0, t.len() as int, Seq::empty(), None, p, e, names, home),
    ensures
        declaration_found(
            t,
            p,
            e,
            names,
            home,
            lifted(sources, space, label, resolved).space.cells,
            lifted(sources, space, label, resolved).space.index,
            Origin { space, file: sources[s].rel_path },
        ),
{
    let view = lifted(sources, space, label, resolved).space;
    let n = sources.len() as int;
    let facts = entity_pass(sources, space, n).facts;
    let from = Origin { space, file: sources[s].rel_path };
    let before = entity_pass(sources, space, s);
    let start = EntityExtractor::empty_facts(before.count);
    let all = entities_in(t, 0, t.len() as int, Seq::empty(), start, from);
    let at = lemma_declared(t, 0, t.len() as int, Seq::empty(), start, from, p, e, names, home);
    let own = node_entities(t, p, e, names, at, from);
    let i = before.facts.len() as int;
    let next = entity_pass(sources, space, s + 1).facts;
    assert(next[i] == all);
    lemma_facts_kept(sources, space, s + 1, n);
    assert(facts[i] == all);
    lemma_all(facts, facts.len() as int, i);
    assert(stays(own.cells, own.ids, view.cells, view.index));
    lemma_found_kept(own.cells, own.ids, view.cells, view.index);
    lemma_kinds();
    let name = text_in_role(t, p, e, "name"@);
    if t[p].kind == "package_declaration"@ {
        lemma_package(t, p, p + 1, e, at, from);
    } else if is_type(t[p]) {
        lemma_type(t, p, e, names, at, from);
        if name.len() > 0 {
            let head = with_entity(
                at,
                from,
                declared_kind(t[p])->0,
                fqn_in(at.package, names, name),
                name,
                witness_of(t[p], from.file),
            );
            lemma_bodies_kept(t, p + 1, e, names.push(name), head, from);
            lemma_found_kept(head.cells, head.ids, own.cells, own.ids);
        }
    } else if t[p].kind == "method_declaration"@ || t[p].kind == "constructor_declaration"@ {
        lemma_callable(t, p, e, names, at, from);
    } else if t[p].kind == "field_declaration"@ {
        lemma_fields(t, p, p + 1, e, names, at, from);
        assert(fields_found(t, p, p + 1, e, names, home, view.cells, view.index, from)) by {
            assert forall|q: int| #[trigger]
                stands_among(t, p + 1, e, q) && t[q].kind == "variable_declarator"@ implies (child_in_role(
                t,
                q,
                node_end(t, q, e),
                "name"@,
            ) matches Some((a, _)) ==> is_found(
                view.cells,
                view.index,
                "java.field"@,
                dotted(home, names.push(t[a].text)),
                t[a].text,
                from.space,
                t[p],
                from.file,
            )) by {
                if let Some((a, _)) = child_in_role(t, q, node_end(t, q, e), "name"@) {
                    assert(is_found(
                        own.cells,
                        own.ids,
                        "java.field"@,
                        dotted(home, names.push(t[a].text)),
                        t[a].text,
                        from.space,
                        t[p],
                        from.file,
                    ));
                }
            }
        }
    } else if t[p].kind == "enum_constant"@ {
        lemma_constant(t, p, e, names, at, from);
    }
}

} // verus!
