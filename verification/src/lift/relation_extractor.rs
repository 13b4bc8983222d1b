//! Relations between the entities of a Java source.

use vstd::prelude::*;

use crate::lift::decision_extractor::{enclosing, enclosing_name};
use crate::lift::entity_extractor::{fqn_in, is_parameter, make_witness, witness_of};
use crate::lift::syntax::{child_in_role, node_end, rows_fit, text_in_role, NodeView, SyntaxTree};
use crate::lines::{drop_prefix, ends, ends_with, opt_text, strip_end, stripped_end, trim, trimmed, without_prefix};
use crate::model::cell_factory::{next_count, provenance_of, CellFactory};
use crate::model::derivation::DerivationSource;
use crate::model::graph::{Incidence, LinkView};
use crate::model::relation::{relation_text, JavaRelationType};
use crate::model::semantic::copy_opt;
use crate::model::space_data::{entry_of, index_view};
use crate::model::witness::{WitnessInfo, WitnessView};
use crate::text::{chars_of, contains_text, copy_texts, decimal, decimal_text, find_from, has, same, string_of, texts};
use crate::text_map::{lookup, TextMap};

verus! {

/// A reference whose target is not among the known entities.
#[derive(Debug)]
pub struct UnresolvedRelation {
    pub from_fqn: String,
    pub target_text: String,
    pub relation_type: JavaRelationType,
    pub witness: WitnessInfo,
}

#[verifier::ext_equal]
pub struct OpenRelation {
    pub from_fqn: Seq<char>,
    pub target_text: Seq<char>,
    pub relation_type: JavaRelationType,
    pub witness: WitnessView,
}

impl View for UnresolvedRelation {
    type V = OpenRelation;

    open spec fn view(&self) -> OpenRelation {
        OpenRelation {
            from_fqn: self.from_fqn@,
            target_text: self.target_text@,
            relation_type: self.relation_type,
            witness: self.witness@,
        }
    }
}

/// What has been found in a source so far, with the number of the last
/// identifier.
#[verifier::ext_equal]
pub struct RelationFacts {
    pub count: int,
    pub package: Option<Seq<char>>,
    pub links: Seq<LinkView>,
    pub unresolved: Seq<OpenRelation>,
}

/// What is known beforehand: the space, the file, the cells of the known names,
/// and the names that a language server has resolved.
#[verifier::ext_equal]
pub struct Known {
    pub space: Seq<char>,
    pub file: Seq<char>,
    pub ids: Seq<(Seq<char>, Seq<char>)>,
    pub resolved: Seq<(Seq<char>, Seq<char>)>,
}

/// The facts with one more relation.
pub open spec fn related(
    f: RelationFacts,
    k: Known,
    relation: JavaRelationType,
    from: Seq<char>,
    to: Seq<char>,
    witness: WitnessView,
) -> RelationFacts {
    RelationFacts {
        count: next_count(f.count),
        links: f.links.push(
            LinkView {
                id: "inc"@ + ":"@ + decimal_text(next_count(f.count) as nat),
                space_id: k.space,
                from,
                to,
                relation: relation_text(relation),
                provenance: Some(provenance_of(witness)),
            },
        ),
        ..f
    }
}

/// What an import declaration imports.
pub open spec fn imported(text: Seq<char>) -> Seq<char> {
    trimmed(stripped_end(without_prefix(without_prefix(trimmed(text), "import "@), "static "@), ";"@))
}

/// The facts with the import at `lo`; only imports inside a class are recorded.
pub open spec fn with_import(
    t: Seq<NodeView>,
    lo: int,
    classes: Seq<Seq<char>>,
    f: RelationFacts,
    k: Known,
) -> RelationFacts {
    let target = imported(t[lo].text);
    if ends(target, ".*"@) || classes.len() == 0 {
        f
    } else {
        match (lookup(k.ids, enclosing(f.package, classes)), lookup(k.ids, target)) {
            (Some(from), Some(to)) => related(
                f,
                k,
                JavaRelationType::Imports,
                from,
                to,
                witness_of(t[lo], k.file),
            ),
            _ => f,
        }
    }
}

/// The known names that end in a type name and are not in the list yet, up to
/// position `n`.
pub open spec fn with_known_names(
    ids: Seq<(Seq<char>, Seq<char>)>,
    name: Seq<char>,
    n: int,
    found: Seq<Seq<char>>,
) -> Seq<Seq<char>>
    decreases n,
{
    if n <= 0 {
        found
    } else {
        let before = with_known_names(ids, name, n - 1, found);
        let fqn = ids[n - 1].0;
        if (ends(fqn, "."@ + name) || fqn == name) && !before.contains(fqn) {
            before.push(fqn)
        } else {
            before
        }
    }
}

/// The names that a type name can stand for by the rules of the source itself.
pub open spec fn type_candidates(package: Option<Seq<char>>, k: Known, name: Seq<char>) -> Seq<Seq<char>> {
    let dotted = if has(name, "."@) {
        seq![name]
    } else {
        Seq::empty()
    };
    let own = match package {
        Some(p) => dotted.push(p + "."@ + name),
        None => dotted,
    };
    with_known_names(k.ids, name, k.ids.len() as int, own)
}

/// The names that a type name can stand for, and who says so.
pub open spec fn type_targets(package: Option<Seq<char>>, k: Known, name: Seq<char>) -> (
    Seq<Seq<char>>,
    DerivationSource,
) {
    match lookup(k.resolved, name) {
        Some(fqn) => (seq![fqn], DerivationSource::Lsp),
        None => (type_candidates(package, k, name), DerivationSource::TreeSitter),
    }
}

/// A member of an object, or a bare name.
pub open spec fn member_text(object: Option<Seq<char>>, name: Seq<char>) -> Seq<char> {
    match object {
        Some(o) => o + "."@ + name,
        None => name,
    }
}

/// The names that a call can stand for, and who says so.
pub open spec fn call_targets(
    package: Option<Seq<char>>,
    classes: Seq<Seq<char>>,
    k: Known,
    name: Seq<char>,
    object: Option<Seq<char>>,
) -> (Seq<Seq<char>>, DerivationSource) {
    match lookup(k.resolved, member_text(object, name)) {
        Some(fqn) => (seq![fqn], DerivationSource::Lsp),
        None => (
            match (object, package) {
                (Some(o), Some(p)) => seq![p + "."@ + o + "."@ + name, o + "."@ + name],
                (Some(o), None) => seq![o + "."@ + name],
                (None, _) => seq![enclosing(package, classes) + "."@ + name],
            },
            DerivationSource::TreeSitter,
        ),
    }
}

/// The cell of the first known name from `i` on.
pub open spec fn first_known(ids: Seq<(Seq<char>, Seq<char>)>, names: Seq<Seq<char>>, i: int) -> Option<Seq<char>>
    decreases names.len() - i,
{
    if i >= names.len() {
        None
    } else {
        match lookup(ids, names[i]) {
            Some(id) => Some(id),
            None => first_known(ids, names, i + 1),
        }
    }
}

pub open spec fn derived(w: WitnessView, source: DerivationSource) -> WitnessView {
    WitnessView { derivation_source: source, ..w }
}

/// The facts with a relation to the type that a name stands for, if it is
/// known. `at` is where the name is used.
pub open spec fn with_type(
    t: Seq<NodeView>,
    at: int,
    name: Seq<char>,
    f: RelationFacts,
    k: Known,
    from: Seq<char>,
    relation: JavaRelationType,
) -> RelationFacts {
    let (names, source) = type_targets(f.package, k, name);
    match first_known(k.ids, names, 0) {
        Some(to) => related(f, k, relation, from, to, derived(witness_of(t[at], k.file), source)),
        None => f,
    }
}

pub open spec fn is_type_name(n: NodeView) -> bool {
    n.kind == "type_identifier"@ || n.kind == "scoped_type_identifier"@
}

/// The facts with a relation to the first known type among the siblings in a
/// range.
pub open spec fn with_first_type(
    t: Seq<NodeView>,
    lo: int,
    hi: int,
    f: RelationFacts,
    k: Known,
    from: Seq<char>,
    relation: JavaRelationType,
) -> RelationFacts
    decreases hi - lo,
{
    if lo >= hi {
        f
    } else if is_type_name(t[lo]) && first_known(k.ids, type_targets(f.package, k, t[lo].text).0, 0) is Some {
        with_type(t, lo, t[lo].text, f, k, from, relation)
    } else {
        with_first_type(t, node_end(t, lo, hi), hi, f, k, from, relation)
    }
}

/// The facts with a relation to each known type among the siblings in a range,
/// and in the type lists there.
pub open spec fn with_types(
    t: Seq<NodeView>,
    lo: int,
    hi: int,
    f: RelationFacts,
    k: Known,
    from: Seq<char>,
    relation: JavaRelationType,
) -> RelationFacts
    decreases hi - lo,
{
    if lo >= hi {
        f
    } else {
        let end = node_end(t, lo, hi);
        let after = if is_type_name(t[lo]) {
            with_type(t, lo, t[lo].text, f, k, from, relation)
        } else if t[lo].kind == "type_list"@ {
            with_types(t, lo + 1, end, f, k, from, relation)
        } else {
            f
        };
        with_types(t, end, hi, after, k, from, relation)
    }
}

/// The facts with the type lists of the given kind among the siblings.
pub open spec fn with_clauses(
    t: Seq<NodeView>,
    lo: int,
    hi: int,
    kind: Seq<char>,
    f: RelationFacts,
    k: Known,
    from: Seq<char>,
    relation: JavaRelationType,
) -> RelationFacts
    decreases hi - lo,
{
    if lo >= hi {
        f
    } else {
        let end = node_end(t, lo, hi);
        let after = if t[lo].kind == kind {
            with_types(t, lo + 1, end, f, k, from, relation)
        } else {
            f
        };
        with_clauses(t, end, hi, kind, after, k, from, relation)
    }
}

/// The facts with the annotations among the siblings in a range.
pub open spec fn with_annotations(
    t: Seq<NodeView>,
    lo: int,
    hi: int,
    f: RelationFacts,
    k: Known,
    from: Seq<char>,
) -> RelationFacts
    decreases hi - lo,
{
    if lo >= hi {
        f
    } else {
        let end = node_end(t, lo, hi);
        let after = match child_in_role(t, lo, end, "name"@) {
            Some((a, _)) => if t[lo].kind == "marker_annotation"@ || t[lo].kind == "annotation"@ {
                with_type(t, lo, t[a].text, f, k, from, JavaRelationType::AnnotatedWith)
            } else {
                f
            },
            None => f,
        };
        with_annotations(t, end, hi, after, k, from)
    }
}

/// What a type is declared in: the enclosing class, or the package.
pub open spec fn container_of(package: Option<Seq<char>>, classes: Seq<Seq<char>>) -> Option<Seq<char>> {
    if classes.len() == 0 {
        package
    } else {
        Some(enclosing(package, classes))
    }
}

/// The facts with the containment of the declaration at `lo`.
pub open spec fn with_container(
    t: Seq<NodeView>,
    lo: int,
    container: Option<Seq<char>>,
    f: RelationFacts,
    k: Known,
    from: Seq<char>,
) -> RelationFacts {
    match container {
        Some(name) => match lookup(k.ids, name) {
            Some(to) => related(f, k, JavaRelationType::ContainedIn, from, to, witness_of(t[lo], k.file)),
            None => f,
        },
        None => f,
    }
}

/// The facts with what the head of the type `lo..hi` says.
pub open spec fn with_type_head(
    t: Seq<NodeView>,
    lo: int,
    hi: int,
    classes: Seq<Seq<char>>,
    f: RelationFacts,
    k: Known,
) -> RelationFacts {
    let name = text_in_role(t, lo, hi, "name"@);
    match lookup(k.ids, fqn_in(f.package, classes, name)) {
        None => f,
        Some(from) => {
            let f1 = with_container(t, lo, container_of(f.package, classes), f, k, from);
            let f2 = if t[lo].kind == "interface_declaration"@ {
                with_clauses(t, lo + 1, hi, "extends_interfaces"@, f1, k, from, JavaRelationType::Extends)
            } else {
                let extended = match child_in_role(t, lo, hi, "superclass"@) {
                    Some((a, b)) => with_first_type(t, a + 1, b, f1, k, from, JavaRelationType::Extends),
                    None => f1,
                };
                match child_in_role(t, lo, hi, "interfaces"@) {
                    Some((a, b)) => with_types(t, a + 1, b, extended, k, from, JavaRelationType::Implements),
                    None => extended,
                }
            };
            with_annotations(t, lo + 1, hi, f2, k, from)
        },
    }
}

/// The facts with the call `lo..hi` in a method.
pub open spec fn with_call(
    t: Seq<NodeView>,
    lo: int,
    hi: int,
    caller: Seq<char>,
    classes: Seq<Seq<char>>,
    f: RelationFacts,
    k: Known,
) -> RelationFacts {
    let name = text_in_role(t, lo, hi, "name"@);
    let object = match child_in_role(t, lo, hi, "object"@) {
        Some((a, _)) => Some(t[a].text),
        None => None,
    };
    let (names, source) = call_targets(f.package, classes, k, name, object);
    let witness = derived(witness_of(t[lo], k.file), source);
    match lookup(k.ids, caller) {
        Some(from) => if name.len() == 0 {
            f
        } else {
            match first_known(k.ids, names, 0) {
                Some(to) => related(f, k, JavaRelationType::Calls, from, to, witness),
                None => RelationFacts {
                    unresolved: f.unresolved.push(
                        OpenRelation {
                            from_fqn: caller,
                            target_text: member_text(object, name),
                            relation_type: JavaRelationType::Calls,
                            witness,
                        },
                    ),
                    ..f
                },
            }
        },
        None => f,
    }
}

/// The facts with the construction `lo..hi` in a method.
pub open spec fn with_construction(
    t: Seq<NodeView>,
    lo: int,
    hi: int,
    caller: Seq<char>,
    f: RelationFacts,
    k: Known,
) -> RelationFacts {
    let name = text_in_role(t, lo, hi, "type"@);
    let (names, source) = type_targets(f.package, k, name);
    let witness = derived(witness_of(t[lo], k.file), source);
    match lookup(k.ids, caller) {
        Some(from) => if name.len() == 0 {
            f
        } else {
            match first_known(k.ids, names, 0) {
                Some(to) => related(f, k, JavaRelationType::Constructs, from, to, witness),
                None => RelationFacts {
                    unresolved: f.unresolved.push(
                        OpenRelation {
                            from_fqn: caller,
                            target_text: "new "@ + name,
                            relation_type: JavaRelationType::Constructs,
                            witness,
                        },
                    ),
                    ..f
                },
            }
        },
        None => f,
    }
}

/// The facts with the calls and constructions among the nodes of a method body.
pub open spec fn with_body(
    t: Seq<NodeView>,
    lo: int,
    hi: int,
    caller: Seq<char>,
    classes: Seq<Seq<char>>,
    f: RelationFacts,
    k: Known,
) -> RelationFacts
    decreases hi - lo,
{
    if lo >= hi {
        f
    } else {
        let end = node_end(t, lo, hi);
        let after = if t[lo].kind == "method_invocation"@ {
            with_call(t, lo, end, caller, classes, f, k)
        } else if t[lo].kind == "object_creation_expression"@ {
            with_construction(t, lo, end, caller, f, k)
        } else {
            f
        };
        with_body(t, lo + 1, hi, caller, classes, after, k)
    }
}

/// The number of parameters among the siblings in a range.
pub open spec fn count_parameters(t: Seq<NodeView>, lo: int, hi: int) -> nat
    decreases hi - lo,
{
    if lo >= hi {
        0
    } else {
        count_parameters(t, node_end(t, lo, hi), hi) + if is_parameter(t[lo]) {
            1nat
        } else {
            0nat
        }
    }
}

/// The qualified name of the method or constructor `lo..hi`.
pub open spec fn callable_fqn(
    t: Seq<NodeView>,
    lo: int,
    hi: int,
    package: Option<Seq<char>>,
    classes: Seq<Seq<char>>,
) -> Seq<char> {
    if t[lo].kind == "constructor_declaration"@ {
        let n = match child_in_role(t, lo, hi, "parameters"@) {
            Some((a, b)) => count_parameters(t, a + 1, b),
            None => 0,
        };
        fqn_in(package, classes, "<init>_"@ + decimal_text(n))
    } else {
        fqn_in(package, classes, text_in_role(t, lo, hi, "name"@))
    }
}

/// The facts with the method or constructor `lo..hi`.
pub open spec fn with_method(
    t: Seq<NodeView>,
    lo: int,
    hi: int,
    classes: Seq<Seq<char>>,
    f: RelationFacts,
    k: Known,
) -> RelationFacts {
    let fqn = callable_fqn(t, lo, hi, f.package, classes);
    if text_in_role(t, lo, hi, "name"@).len() == 0 {
        f
    } else {
        let head = match lookup(k.ids, fqn) {
            Some(from) => {
                let f1 = with_container(t, lo, Some(enclosing(f.package, classes)), f, k, from);
                let f2 = with_clauses(t, lo + 1, hi, "throws"@, f1, k, from, JavaRelationType::Throws);
                with_annotations(t, lo + 1, hi, f2, k, from)
            },
            None => f,
        };
        match child_in_role(t, lo, hi, "body"@) {
            Some((a, b)) => with_body(t, a, b, fqn, classes, head, k),
            None => head,
        }
    }
}

/// The last plain or dotted name among the siblings in a range.
pub open spec fn last_name(t: Seq<NodeView>, lo: int, hi: int, found: Option<Seq<char>>) -> Option<Seq<char>>
    decreases hi - lo,
{
    if lo >= hi {
        found
    } else if t[lo].kind == "scoped_identifier"@ || t[lo].kind == "identifier"@ {
        last_name(t, node_end(t, lo, hi), hi, Some(t[lo].text))
    } else {
        last_name(t, node_end(t, lo, hi), hi, found)
    }
}

/// The kind of body that a type declaration has.
pub open spec fn body_kind(n: NodeView) -> Option<Seq<char>> {
    if n.kind == "class_declaration"@ {
        Some("class_body"@)
    } else if n.kind == "interface_declaration"@ {
        Some("interface_body"@)
    } else if n.kind == "enum_declaration"@ {
        Some("enum_body"@)
    } else if n.kind == "record_declaration"@ {
        Some("record_declaration_body"@)
    } else {
        None
    }
}

/// The facts with every relation in the range.
pub open spec fn relations_in(
    t: Seq<NodeView>,
    lo: int,
    hi: int,
    classes: Seq<Seq<char>>,
    f: RelationFacts,
    k: Known,
) -> RelationFacts
    decreases hi - lo, 0nat,
{
    if lo >= hi {
        f
    } else {
        let end = node_end(t, lo, hi);
        let name = text_in_role(t, lo, end, "name"@);
        let after = if t[lo].kind == "package_declaration"@ {
            RelationFacts { package: last_name(t, lo + 1, end, f.package), ..f }
        } else if t[lo].kind == "import_declaration"@ {
            with_import(t, lo, classes, f, k)
        } else if body_kind(t[lo]) is Some {
            if name.len() == 0 {
                f
            } else {
                relations_in_bodies(
                    t,
                    lo + 1,
                    end,
                    body_kind(t[lo])->0,
                    classes.push(name),
                    with_type_head(t, lo, end, classes, f, k),
                    k,
                )
            }
        } else if t[lo].kind == "method_declaration"@ || t[lo].kind == "constructor_declaration"@ {
            with_method(t, lo, end, classes, f, k)
        } else {
            relations_in(t, lo + 1, end, classes, f, k)
        };
        relations_in(t, end, hi, classes, after, k)
    }
}

/// The facts with every relation in the bodies of a kind among the siblings.
pub open spec fn relations_in_bodies(
    t: Seq<NodeView>,
    lo: int,
    hi: int,
    kind: Seq<char>,
    classes: Seq<Seq<char>>,
    f: RelationFacts,
    k: Known,
) -> RelationFacts
    decreases hi - lo, 1nat,
{
    if lo >= hi {
        f
    } else {
        let end = node_end(t, lo, hi);
        let after = if t[lo].kind == kind {
            relations_in(t, lo + 1, end, classes, f, k)
        } else {
            f
        };
        relations_in_bodies(t, end, hi, kind, classes, after, k)
    }
}

fn import_target(text: &str) -> (r: String)
    ensures
        r@ == imported(text@),
{
    let chars = chars_of(text);
    let rest = drop_prefix(drop_prefix(trim(chars.as_slice()), "import "), "static ");
    string_of(trim(strip_end(rest, ";")))
}

fn dotted(outer: &str, name: &str) -> (r: String)
    ensures
        r@ == outer@ + "."@ + name@,
{
    let mut r = outer.to_owned();
    r.append(".");
    r.append(name);
    r
}

/// The names that something can stand for, and who says so.
#[derive(Debug)]
pub struct Targets {
    pub names: Vec<String>,
    pub source: DerivationSource,
}

pub struct RelationExtractor {
    pub incidences: Vec<Incidence>,
    pub unresolved: Vec<UnresolvedRelation>,
    pub fqn_to_cell_id: TextMap<String>,
    pub resolved_cache: TextMap<String>,
    pub package_name: Option<String>,
    pub file_path: String,
}

impl RelationExtractor {
    /// What has been found, with the number of the last identifier.
    pub open spec fn facts(self, count: int) -> RelationFacts {
        RelationFacts {
            count,
            package: opt_text(self.package_name),
            links: self.incidences@.map_values(|i: Incidence| i@),
            unresolved: self.unresolved@.map_values(|u: UnresolvedRelation| u@),
        }
    }

    /// What was known beforehand.
    pub open spec fn known(self, space: Seq<char>) -> Known {
        Known {
            space,
            file: self.file_path@,
            ids: index_view(self.fqn_to_cell_id),
            resolved: index_view(self.resolved_cache),
        }
    }

    /// What was known beforehand has not changed.
    pub open spec fn kept(self, before: Self) -> bool {
        &&& self.fqn_to_cell_id == before.fqn_to_cell_id
        &&& self.resolved_cache == before.resolved_cache
        &&& self.file_path == before.file_path
    }

    pub fn new(fqn_to_cell_id: TextMap<String>, file_path: &str) -> (r: Self)
        ensures
            forall|space: Seq<char>| #[trigger]
                r.known(space) == (Known {
                    space,
                    file: file_path@,
                    ids: index_view(fqn_to_cell_id),
                    resolved: Seq::empty(),
                }),
            forall|count: int| #[trigger]
                r.facts(count) == (RelationFacts {
                    count,
                    package: None,
                    links: Seq::empty(),
                    unresolved: Seq::empty(),
                }),
            r.file_path@ == file_path@,
            r.fqn_to_cell_id == fqn_to_cell_id,
    {
        let r = RelationExtractor {
            incidences: Vec::new(),
            unresolved: Vec::new(),
            fqn_to_cell_id,
            resolved_cache: TextMap::new(),
            package_name: None,
            file_path: file_path.to_owned(),
        };
        assert(index_view(r.resolved_cache) =~= Seq::empty());
        assert(r.incidences@.map_values(|i: Incidence| i@) =~= Seq::empty());
        assert(r.unresolved@.map_values(|u: UnresolvedRelation| u@) =~= Seq::empty());
        r
    }

    /// Takes over what a language server has resolved.
    pub fn with_resolved_cache(self, cache: TextMap<String>) -> (r: Self)
        ensures
            r == (RelationExtractor { resolved_cache: cache, ..self }),
    {
        let mut r = self;
        r.resolved_cache = cache;
        r
    }

    fn relate(
        &mut self,
        factory: &mut CellFactory,
        relation: JavaRelationType,
        from: &str,
        to: &str,
        witness: &WitnessInfo,
    )
        requires
            trimmed(witness.file@).len() > 0,
        ensures
            final(self).kept(*old(self)),
            final(factory).space() == old(factory).space(),
            final(self).facts(final(factory).count()) == related(
                old(self).facts(old(factory).count()),
                old(self).known(old(factory).space()),
                relation,
                from@,
                to@,
                witness@,
            ),
    {
        let ghost before = self.facts(factory.count());
        let link = factory.create_relation_incidence(&relation, from.to_owned(), to.to_owned(), witness);
        let ghost lv = link@;
        self.incidences.push(link);
        assert(self.facts(factory.count()).links =~= before.links.push(lv));
    }

    fn leave_open(
        &mut self,
        caller: &str,
        target_text: String,
        relation_type: JavaRelationType,
        witness: WitnessInfo,
        Ghost(count): Ghost<int>,
    )
        ensures
            final(self).kept(*old(self)),
            final(self).facts(count) == (RelationFacts {
                unresolved: old(self).facts(count).unresolved.push(
                    OpenRelation { from_fqn: caller@, target_text: target_text@, relation_type, witness: witness@ },
                ),
                ..old(self).facts(count)
            }),
    {
        let ghost before = self.facts(count);
        let item = UnresolvedRelation { from_fqn: caller.to_owned(), target_text, relation_type, witness };
        let ghost iv = item@;
        self.unresolved.push(item);
        assert(self.facts(count).unresolved =~= before.unresolved.push(iv));
    }

    fn resolve_type_name(&self, name: &str) -> (r: Targets)
        ensures
            forall|space: Seq<char>| #[trigger]
                type_targets(opt_text(self.package_name), self.known(space), name@) == (texts(r.names@), r.source),
    {
        let ghost ids = index_view(self.fqn_to_cell_id);
        let mut names: Vec<String> = Vec::new();
        match entry_of(&self.resolved_cache, name) {
            Some(fqn) => {
                names.push(fqn.clone());
                assert(texts(names@) =~= seq![fqn@]);
                return Targets { names, source: DerivationSource::Lsp };
            },
            None => {},
        }
        assert(texts(names@) =~= Seq::empty());
        if find_from(chars_of(name).as_slice(), ".", 0).is_some() {
            names.push(name.to_owned());
            assert(texts(names@) =~= seq![name@]);
        }
        match &self.package_name {
            Some(p) => {
                let ghost before = texts(names@);
                let own = dotted(p.as_str(), name);
                let ghost x = own@;
                names.push(own);
                assert(texts(names@) =~= before.push(x));
            },
            None => {},
        }
        let ghost own = texts(names@);
        let mut suffix = ".".to_owned();
        suffix.append(name);
        let n: usize = self.fqn_to_cell_id.len();
        let mut i: usize = 0;
        while i < n
            invariant
                n == self.fqn_to_cell_id.entries().len(),
                ids == index_view(self.fqn_to_cell_id),
                suffix@ == "."@ + name@,
                i <= n,
                texts(names@) == with_known_names(ids, name@, i as int, own),
            decreases n - i,
        {
            let fqn = self.fqn_to_cell_id.key_at(i);
            assert(ids[i as int].0 == fqn@);
            if (ends_with(chars_of(fqn.as_str()).as_slice(), suffix.as_str()) || same(fqn.as_str(), name))
                && !contains_text(names.as_slice(), fqn.as_str()) {
                let ghost before = texts(names@);
                names.push(fqn.clone());
                assert(texts(names@) =~= before.push(fqn@));
            }
            i = i + 1;
        }
        Targets { names, source: DerivationSource::TreeSitter }
    }

    fn resolve_call_target(&self, name: &str, object: &Option<String>, classes: &Vec<String>) -> (r: Targets)
        ensures
            forall|space: Seq<char>| #[trigger]
                call_targets(
                    opt_text(self.package_name),
                    texts(classes@),
                    self.known(space),
                    name@,
                    opt_text(*object),
                ) == (texts(r.names@), r.source),
    {
        let mut names: Vec<String> = Vec::new();
        let key = member(object, name);
        match entry_of(&self.resolved_cache, key.as_str()) {
            Some(fqn) => {
                names.push(fqn.clone());
                assert(texts(names@) =~= seq![fqn@]);
                return Targets { names, source: DerivationSource::Lsp };
            },
            None => {},
        }
        match (object, &self.package_name) {
            (Some(o), Some(p)) => {
                let first = dotted(dotted(p.as_str(), o.as_str()).as_str(), name);
                names.push(first);
                names.push(dotted(o.as_str(), name));
                assert(texts(names@) =~= seq![p@ + "."@ + o@ + "."@ + name@, o@ + "."@ + name@]);
            },
            (Some(o), None) => {
                names.push(dotted(o.as_str(), name));
                assert(texts(names@) =~= seq![o@ + "."@ + name@]);
            },
            (None, _) => {
                let class = enclosing_name(&self.package_name, classes);
                names.push(dotted(class.as_str(), name));
                assert(texts(names@) =~= seq![
                    enclosing(opt_text(self.package_name), texts(classes@)) + "."@ + name@,
                ]);
            },
        }
        Targets { names, source: DerivationSource::TreeSitter }
    }

    fn find_known(&self, names: &Vec<String>) -> (r: Option<String>)
        ensures
            opt_text(r) == first_known(index_view(self.fqn_to_cell_id), texts(names@), 0),
    {
        let ghost ids = index_view(self.fqn_to_cell_id);
        let ghost all = texts(names@);
        let mut i: usize = 0;
        while i < names.len()
            invariant
                ids == index_view(self.fqn_to_cell_id),
                all == texts(names@),
                i <= names@.len(),
                first_known(ids, all, 0) == first_known(ids, all, i as int),
            decreases names.len() - i,
        {
            assert(all[i as int] == names@[i as int]@);
            match entry_of(&self.fqn_to_cell_id, names[i].as_str()) {
                Some(id) => {
                    return Some(id.clone());
                },
                None => {},
            }
            i = i + 1;
        }
        None
    }

    fn relate_type(
        &mut self,
        tree: &SyntaxTree,
        at: usize,
        name: &str,
        factory: &mut CellFactory,
        from: &str,
        relation: JavaRelationType,
    ) -> (r: bool)
        requires
            at < tree@.len(),
            rows_fit(tree@),
            trimmed(old(self).file_path@).len() > 0,
        ensures
            final(self).kept(*old(self)),
            final(factory).space() == old(factory).space(),
            r == (first_known(
                index_view(old(self).fqn_to_cell_id),
                type_targets(
                    old(self).facts(old(factory).count()).package,
                    old(self).known(old(factory).space()),
                    name@,
                ).0,
                0,
            ) is Some),
            !r ==> *final(self) == *old(self) && *final(factory) == *old(factory),
            final(self).facts(final(factory).count()) == with_type(
                tree@,
                at as int,
                name@,
                old(self).facts(old(factory).count()),
                old(self).known(old(factory).space()),
                from@,
                relation,
            ),
    {
        let targets = self.resolve_type_name(name);
        assert(type_targets(opt_text(self.package_name), self.known(factory.space()), name@) == (
            texts(targets.names@),
            targets.source,
        ));
        match self.find_known(&targets.names) {
            Some(to) => {
                let mut witness = make_witness(tree, at, self.file_path.as_str());
                witness.derivation_source = targets.source;
                assert(witness@ =~= derived(witness_of(tree@[at as int], self.file_path@), targets.source));
                self.relate(factory, relation, from, to.as_str(), &witness);
                true
            },
            None => false,
        }
    }

    fn relate_first_type(
        &mut self,
        tree: &SyntaxTree,
        lo: usize,
        hi: usize,
        factory: &mut CellFactory,
        from: &str,
        relation: JavaRelationType,
    )
        requires
            lo <= hi <= tree@.len(),
            rows_fit(tree@),
            trimmed(old(self).file_path@).len() > 0,
        ensures
            final(self).kept(*old(self)),
            final(factory).space() == old(factory).space(),
            final(self).facts(final(factory).count()) == with_first_type(
                tree@,
                lo as int,
                hi as int,
                old(self).facts(old(factory).count()),
                old(self).known(old(factory).space()),
                from@,
                relation,
            ),
    {
        let ghost t = tree@;
        let ghost f = self.facts(factory.count());
        let ghost k = self.known(factory.space());
        let mut i: usize = lo;
        while i < hi
            invariant
                lo <= i <= hi <= tree@.len(),
                rows_fit(tree@),
                t == tree@,
                self.kept(*old(self)),
                factory.space() == old(factory).space(),
                trimmed(self.file_path@).len() > 0,
                k == self.known(factory.space()),
                *self == *old(self),
                *factory == *old(factory),
                f == self.facts(factory.count()),
                with_first_type(t, lo as int, hi as int, f, k, from@, relation) == with_first_type(
                    t,
                    i as int,
                    hi as int,
                    f,
                    k,
                    from@,
                    relation,
                ),
            decreases hi - i,
        {
            if tree.is_kind(i, "type_identifier") || tree.is_kind(i, "scoped_type_identifier") {
                if self.relate_type(tree, i, tree.text(i), factory, from, relation) {
                    return ;
                }
            }
            i = tree.end_of(i, hi);
        }
    }

    fn relate_types(
        &mut self,
        tree: &SyntaxTree,
        lo: usize,
        hi: usize,
        factory: &mut CellFactory,
        from: &str,
        relation: JavaRelationType,
    )
        requires
            lo <= hi <= tree@.len(),
            rows_fit(tree@),
            trimmed(old(self).file_path@).len() > 0,
        ensures
            final(self).kept(*old(self)),
            final(factory).space() == old(factory).space(),
            final(self).facts(final(factory).count()) == with_types(
                tree@,
                lo as int,
                hi as int,
                old(self).facts(old(factory).count()),
                old(self).known(old(factory).space()),
                from@,
                relation,
            ),
        decreases hi - lo,
    {
        let ghost t = tree@;
        let ghost k = self.known(factory.space());
        let ghost all = with_types(t, lo as int, hi as int, self.facts(factory.count()), k, from@, relation);
        let mut i: usize = lo;
        while i < hi
            invariant
                lo <= i <= hi <= tree@.len(),
                rows_fit(tree@),
                t == tree@,
                self.kept(*old(self)),
                factory.space() == old(factory).space(),
                trimmed(self.file_path@).len() > 0,
                k == self.known(factory.space()),
                all == with_types(t, i as int, hi as int, self.facts(factory.count()), k, from@, relation),
            decreases hi - i,
        {
            let end: usize = tree.end_of(i, hi);
            if tree.is_kind(i, "type_identifier") || tree.is_kind(i, "scoped_type_identifier") {
                self.relate_type(tree, i, tree.text(i), factory, from, relation);
            } else if tree.is_kind(i, "type_list") {
                self.relate_types(tree, i + 1, end, factory, from, relation);
            }
            i = end;
        }
    }

    fn relate_clauses(
        &mut self,
        tree: &SyntaxTree,
        lo: usize,
        hi: usize,
        kind: &str,
        factory: &mut CellFactory,
        from: &str,
        relation: JavaRelationType,
    )
        requires
            lo <= hi <= tree@.len(),
            rows_fit(tree@),
            trimmed(old(self).file_path@).len() > 0,
        ensures
            final(self).kept(*old(self)),
            final(factory).space() == old(factory).space(),
            final(self).facts(final(factory).count()) == with_clauses(
                tree@,
                lo as int,
                hi as int,
                kind@,
                old(self).facts(old(factory).count()),
                old(self).known(old(factory).space()),
                from@,
                relation,
            ),
    {
        let ghost t = tree@;
        let ghost k = self.known(factory.space());
        let ghost all = with_clauses(t, lo as int, hi as int, kind@, self.facts(factory.count()), k, from@, relation);
        let mut i: usize = lo;
        while i < hi
            invariant
                lo <= i <= hi <= tree@.len(),
                rows_fit(tree@),
                t == tree@,
                self.kept(*old(self)),
                factory.space() == old(factory).space(),
                trimmed(self.file_path@).len() > 0,
                k == self.known(factory.space()),
                all == with_clauses(t, i as int, hi as int, kind@, self.facts(factory.count()), k, from@, relation),
            decreases hi - i,
        {
            let end: usize = tree.end_of(i, hi);
            if tree.is_kind(i, kind) {
                self.relate_types(tree, i + 1, end, factory, from, relation);
            }
            i = end;
        }
    }

    fn relate_annotations(
        &mut self,
        tree: &SyntaxTree,
        lo: usize,
        hi: usize,
        factory: &mut CellFactory,
        from: &str,
    )
        requires
            lo <= hi <= tree@.len(),
            rows_fit(tree@),
            trimmed(old(self).file_path@).len() > 0,
        ensures
            final(self).kept(*old(self)),
            final(factory).space() == old(factory).space(),
            final(self).facts(final(factory).count()) == with_annotations(
                tree@,
                lo as int,
                hi as int,
                old(self).facts(old(factory).count()),
                old(self).known(old(factory).space()),
                from@,
            ),
    {
        let ghost t = tree@;
        let ghost k = self.known(factory.space());
        let ghost all = with_annotations(t, lo as int, hi as int, self.facts(factory.count()), k, from@);
        let mut i: usize = lo;
        while i < hi
            invariant
                lo <= i <= hi <= tree@.len(),
                rows_fit(tree@),
                t == tree@,
                self.kept(*old(self)),
                factory.space() == old(factory).space(),
                trimmed(self.file_path@).len() > 0,
                k == self.known(factory.space()),
                all == with_annotations(t, i as int, hi as int, self.facts(factory.count()), k, from@),
            decreases hi - i,
        {
            let end: usize = tree.end_of(i, hi);
            if tree.is_kind(i, "marker_annotation") || tree.is_kind(i, "annotation") {
                match tree.child(i, end, "name") {
                    Some((a, _)) => {
                        self.relate_type(tree, i, tree.text(a), factory, from, JavaRelationType::AnnotatedWith);
                    },
                    None => {},
                }
            }
            i = end;
        }
    }

    fn relate_container(
        &mut self,
        tree: &SyntaxTree,
        at: usize,
        container: Option<String>,
        factory: &mut CellFactory,
        from: &str,
    )
        requires
            at < tree@.len(),
            rows_fit(tree@),
            trimmed(old(self).file_path@).len() > 0,
        ensures
            final(self).kept(*old(self)),
            final(factory).space() == old(factory).space(),
            final(self).facts(final(factory).count()) == with_container(
                tree@,
                at as int,
                opt_text(container),
                old(self).facts(old(factory).count()),
                old(self).known(old(factory).space()),
                from@,
            ),
    {
        match container {
            Some(name) => match self.id_of(name.as_str()) {
                Some(to) => {
                    let witness = make_witness(tree, at, self.file_path.as_str());
                    self.relate(factory, JavaRelationType::ContainedIn, from, to.as_str(), &witness);
                },
                None => {},
            },
            None => {},
        }
    }

    /// The cell of a known name.
    fn id_of(&self, name: &str) -> (r: Option<String>)
        ensures
            opt_text(r) == lookup(index_view(self.fqn_to_cell_id), name@),
    {
        match entry_of(&self.fqn_to_cell_id, name) {
            Some(id) => Some(id.clone()),
            None => None,
        }
    }

    fn qualified(&self, classes: &Vec<String>, name: &str) -> (r: String)
        ensures
            r@ == fqn_in(opt_text(self.package_name), texts(classes@), name@),
    {
        let mut parts = copy_texts(classes.as_slice());
        let ghost before = texts(parts@);
        parts.push(name.to_owned());
        assert(texts(parts@) =~= before.push(name@));
        enclosing_name(&self.package_name, &parts)
    }

    fn extract_import(&mut self, tree: &SyntaxTree, at: usize, classes: &Vec<String>, factory: &mut CellFactory)
        requires
            at < tree@.len(),
            rows_fit(tree@),
            trimmed(old(self).file_path@).len() > 0,
        ensures
            final(self).kept(*old(self)),
            final(factory).space() == old(factory).space(),
            final(self).facts(final(factory).count()) == with_import(
                tree@,
                at as int,
                texts(classes@),
                old(self).facts(old(factory).count()),
                old(self).known(old(factory).space()),
            ),
    {
        let target = import_target(tree.text(at));
        assert(texts(classes@).len() == classes@.len());
        if ends_with(chars_of(target.as_str()).as_slice(), ".*") || classes.len() == 0 {
            return ;
        }
        let class = enclosing_name(&self.package_name, classes);
        match (self.id_of(class.as_str()), self.id_of(target.as_str())) {
            (Some(from), Some(to)) => {
                let witness = make_witness(tree, at, self.file_path.as_str());
                self.relate(factory, JavaRelationType::Imports, from.as_str(), to.as_str(), &witness);
            },
            _ => {},
        }
    }

    fn extract_type_head(
        &mut self,
        tree: &SyntaxTree,
        lo: usize,
        hi: usize,
        classes: &Vec<String>,
        factory: &mut CellFactory,
    )
        requires
            lo < hi <= tree@.len(),
            rows_fit(tree@),
            trimmed(old(self).file_path@).len() > 0,
        ensures
            final(self).kept(*old(self)),
            final(factory).space() == old(factory).space(),
            final(self).facts(final(factory).count()) == with_type_head(
                tree@,
                lo as int,
                hi as int,
                texts(classes@),
                old(self).facts(old(factory).count()),
                old(self).known(old(factory).space()),
            ),
    {
        let name = tree.role_text(lo, hi, "name");
        let fqn = self.qualified(classes, name.as_str());
        assert(texts(classes@).len() == classes@.len());
        match self.id_of(fqn.as_str()) {
            None => {},
            Some(from) => {
                let container = if classes.len() == 0 {
                    copy_opt(&self.package_name)
                } else {
                    Some(enclosing_name(&self.package_name, classes))
                };
                self.relate_container(tree, lo, container, factory, from.as_str());
                if tree.is_kind(lo, "interface_declaration") {
                    self.relate_clauses(
                        tree,
                        lo + 1,
                        hi,
                        "extends_interfaces",
                        factory,
                        from.as_str(),
                        JavaRelationType::Extends,
                    );
                } else {
                    match tree.child(lo, hi, "superclass") {
                        Some((a, b)) => {
                            self.relate_first_type(
                                tree,
                                a + 1,
                                b,
                                factory,
                                from.as_str(),
                                JavaRelationType::Extends,
                            );
                        },
                        None => {},
                    }
                    match tree.child(lo, hi, "interfaces") {
                        Some((a, b)) => {
                            self.relate_types(
                                tree,
                                a + 1,
                                b,
                                factory,
                                from.as_str(),
                                JavaRelationType::Implements,
                            );
                        },
                        None => {},
                    }
                }
                self.relate_annotations(tree, lo + 1, hi, factory, from.as_str());
            },
        }
    }

    fn extract_call(
        &mut self,
        tree: &SyntaxTree,
        lo: usize,
        hi: usize,
        caller: &str,
        classes: &Vec<String>,
        factory: &mut CellFactory,
    )
        requires
            lo < hi <= tree@.len(),
            rows_fit(tree@),
            trimmed(old(self).file_path@).len() > 0,
        ensures
            final(self).kept(*old(self)),
            final(factory).space() == old(factory).space(),
            final(self).facts(final(factory).count()) == with_call(
                tree@,
                lo as int,
                hi as int,
                caller@,
                texts(classes@),
                old(self).facts(old(factory).count()),
                old(self).known(old(factory).space()),
            ),
    {
        let name = tree.role_text(lo, hi, "name");
        if name.as_str().is_empty() {
            return ;
        }
        let from = match self.id_of(caller) {
            Some(from) => from,
            None => {
                return ;
            },
        };
        let object = match tree.child(lo, hi, "object") {
            Some((a, _)) => Some(tree.text(a).to_owned()),
            None => None,
        };
        let targets = self.resolve_call_target(name.as_str(), &object, classes);
        assert(call_targets(
            opt_text(self.package_name),
            texts(classes@),
            self.known(factory.space()),
            name@,
            opt_text(object),
        ) == (texts(targets.names@), targets.source));
        let mut witness = make_witness(tree, lo, self.file_path.as_str());
        witness.derivation_source = targets.source;
        assert(witness@ =~= derived(witness_of(tree@[lo as int], self.file_path@), targets.source));
        match self.find_known(&targets.names) {
            Some(to) => {
                self.relate(factory, JavaRelationType::Calls, from.as_str(), to.as_str(), &witness);
            },
            None => {
                let text = member(&object, name.as_str());
                self.leave_open(caller, text, JavaRelationType::Calls, witness, Ghost(factory.count()));
            },
        }
    }

    fn extract_construction(
        &mut self,
        tree: &SyntaxTree,
        lo: usize,
        hi: usize,
        caller: &str,
        factory: &mut CellFactory,
    )
        requires
            lo < hi <= tree@.len(),
            rows_fit(tree@),
            trimmed(old(self).file_path@).len() > 0,
        ensures
            final(self).kept(*old(self)),
            final(factory).space() == old(factory).space(),
            final(self).facts(final(factory).count()) == with_construction(
                tree@,
                lo as int,
                hi as int,
                caller@,
                old(self).facts(old(factory).count()),
                old(self).known(old(factory).space()),
            ),
    {
        let name = tree.role_text(lo, hi, "type");
        if name.as_str().is_empty() {
            return ;
        }
        let from = match self.id_of(caller) {
            Some(from) => from,
            None => {
                return ;
            },
        };
        let targets = self.resolve_type_name(name.as_str());
        assert(type_targets(opt_text(self.package_name), self.known(factory.space()), name@) == (
            texts(targets.names@),
            targets.source,
        ));
        let mut witness = make_witness(tree, lo, self.file_path.as_str());
        witness.derivation_source = targets.source;
        assert(witness@ =~= derived(witness_of(tree@[lo as int], self.file_path@), targets.source));
        match self.find_known(&targets.names) {
            Some(to) => {
                self.relate(factory, JavaRelationType::Constructs, from.as_str(), to.as_str(), &witness);
            },
            None => {
                let mut text = "new ".to_owned();
                text.append(name.as_str());
                self.leave_open(caller, text, JavaRelationType::Constructs, witness, Ghost(factory.count()));
            },
        }
    }

    fn extract_body(
        &mut self,
        tree: &SyntaxTree,
        lo: usize,
        hi: usize,
        caller: &str,
        classes: &Vec<String>,
        factory: &mut CellFactory,
    )
        requires
            lo <= hi <= tree@.len(),
            rows_fit(tree@),
            trimmed(old(self).file_path@).len() > 0,
        ensures
            final(self).kept(*old(self)),
            final(factory).space() == old(factory).space(),
            final(self).facts(final(factory).count()) == with_body(
                tree@,
                lo as int,
                hi as int,
                caller@,
                texts(classes@),
                old(self).facts(old(factory).count()),
                old(self).known(old(factory).space()),
            ),
    {
        let ghost t = tree@;
        let ghost k = self.known(factory.space());
        let ghost names = texts(classes@);
        let ghost all = with_body(t, lo as int, hi as int, caller@, names, self.facts(factory.count()), k);
        let mut i: usize = lo;
        while i < hi
            invariant
                lo <= i <= hi <= tree@.len(),
                rows_fit(tree@),
                t == tree@,
                self.kept(*old(self)),
                factory.space() == old(factory).space(),
                trimmed(self.file_path@).len() > 0,
                k == self.known(factory.space()),
                names == texts(classes@),
                all == with_body(t, i as int, hi as int, caller@, names, self.facts(factory.count()), k),
            decreases hi - i,
        {
            let end: usize = tree.end_of(i, hi);
            if tree.is_kind(i, "method_invocation") {
                self.extract_call(tree, i, end, caller, classes, factory);
            } else if tree.is_kind(i, "object_creation_expression") {
                self.extract_construction(tree, i, end, caller, factory);
            }
            i = i + 1;
        }
    }

    fn extract_method(
        &mut self,
        tree: &SyntaxTree,
        lo: usize,
        hi: usize,
        classes: &Vec<String>,
        factory: &mut CellFactory,
    )
        requires
            lo < hi <= tree@.len(),
            rows_fit(tree@),
            trimmed(old(self).file_path@).len() > 0,
        ensures
            final(self).kept(*old(self)),
            final(factory).space() == old(factory).space(),
            final(self).facts(final(factory).count()) == with_method(
                tree@,
                lo as int,
                hi as int,
                texts(classes@),
                old(self).facts(old(factory).count()),
                old(self).known(old(factory).space()),
            ),
    {
        let name = tree.role_text(lo, hi, "name");
        if name.as_str().is_empty() {
            return ;
        }
        let fqn = if tree.is_kind(lo, "constructor_declaration") {
            let mut own = "<init>_".to_owned();
            own.append(decimal(parameter_count(tree, lo, hi) as u128).as_str());
            self.qualified(classes, own.as_str())
        } else {
            self.qualified(classes, name.as_str())
        };
        match self.id_of(fqn.as_str()) {
            Some(from) => {
                let class = enclosing_name(&self.package_name, classes);
                self.relate_container(tree, lo, Some(class), factory, from.as_str());
                self.relate_clauses(tree, lo + 1, hi, "throws", factory, from.as_str(), JavaRelationType::Throws);
                self.relate_annotations(tree, lo + 1, hi, factory, from.as_str());
            },
            None => {},
        }
        match tree.child(lo, hi, "body") {
            Some((a, b)) => {
                self.extract_body(tree, a, b, fqn.as_str(), classes, factory);
            },
            None => {},
        }
    }

    fn read_package(&mut self, tree: &SyntaxTree, lo: usize, hi: usize, Ghost(count): Ghost<int>)
        requires
            lo <= hi <= tree@.len(),
        ensures
            final(self).kept(*old(self)),
            final(self).facts(count) == (RelationFacts {
                package: last_name(tree@, lo as int, hi as int, old(self).facts(count).package),
                ..old(self).facts(count)
            }),
    {
        let ghost t = tree@;
        let ghost before = self.facts(count);
        let mut i: usize = lo;
        while i < hi
            invariant
                lo <= i <= hi <= tree@.len(),
                t == tree@,
                before == old(self).facts(count),
                self.kept(*old(self)),
                self.facts(count) == (RelationFacts { package: opt_text(self.package_name), ..before }),
                last_name(t, lo as int, hi as int, before.package) == last_name(
                    t,
                    i as int,
                    hi as int,
                    opt_text(self.package_name),
                ),
            decreases hi - i,
        {
            let end: usize = tree.end_of(i, hi);
            if tree.is_kind(i, "scoped_identifier") || tree.is_kind(i, "identifier") {
                self.package_name = Some(tree.text(i).to_owned());
                assert(self.facts(count) =~= RelationFacts { package: opt_text(self.package_name), ..before });
            }
            i = end;
        }
    }

    fn visit(
        &mut self,
        tree: &SyntaxTree,
        lo: usize,
        hi: usize,
        classes: &mut Vec<String>,
        factory: &mut CellFactory,
    )
        requires
            lo <= hi <= tree@.len(),
            rows_fit(tree@),
            trimmed(old(self).file_path@).len() > 0,
        ensures
            final(self).kept(*old(self)),
            final(factory).space() == old(factory).space(),
            final(self).facts(final(factory).count()) == relations_in(
                tree@,
                lo as int,
                hi as int,
                texts(old(classes)@),
                old(self).facts(old(factory).count()),
                old(self).known(old(factory).space()),
            ),
            texts(final(classes)@) == texts(old(classes)@),
        decreases hi - lo, 0nat,
    {
        let ghost t = tree@;
        let ghost k = self.known(factory.space());
        let ghost names = texts(classes@);
        let ghost all = relations_in(t, lo as int, hi as int, names, self.facts(factory.count()), k);
        let mut i: usize = lo;
        while i < hi
            invariant
                lo <= i <= hi <= tree@.len(),
                rows_fit(tree@),
                t == tree@,
                self.kept(*old(self)),
                factory.space() == old(factory).space(),
                trimmed(self.file_path@).len() > 0,
                k == self.known(factory.space()),
                names == texts(classes@),
                all == relations_in(t, i as int, hi as int, names, self.facts(factory.count()), k),
            decreases hi - i,
        {
            let end: usize = tree.end_of(i, hi);
            let kind = kind_of_body(tree, i);
            if tree.is_kind(i, "package_declaration") {
                self.read_package(tree, i + 1, end, Ghost(factory.count()));
            } else if tree.is_kind(i, "import_declaration") {
                self.extract_import(tree, i, classes, factory);
            } else if let Some(kind) = kind {
                let name = tree.role_text(i, end, "name");
                if !name.as_str().is_empty() {
                    let ghost x = name@;
                    self.extract_type_head(tree, i, end, classes, factory);
                    classes.push(name);
                    assert(texts(classes@) =~= names.push(x));
                    self.visit_bodies(tree, i + 1, end, kind, classes, factory);
                    assert(texts(classes@).len() == classes@.len());
                    classes.pop();
                    assert(texts(classes@) =~= names.push(x).drop_last());
                    assert(names.push(x).drop_last() =~= names);
                }
            } else if tree.is_kind(i, "method_declaration") || tree.is_kind(i, "constructor_declaration") {
                self.extract_method(tree, i, end, classes, factory);
            } else {
                self.visit(tree, i + 1, end, classes, factory);
            }
            i = end;
        }
    }

    fn visit_bodies(
        &mut self,
        tree: &SyntaxTree,
        lo: usize,
        hi: usize,
        kind: &str,
        classes: &mut Vec<String>,
        factory: &mut CellFactory,
    )
        requires
            lo <= hi <= tree@.len(),
            rows_fit(tree@),
            trimmed(old(self).file_path@).len() > 0,
        ensures
            final(self).kept(*old(self)),
            final(factory).space() == old(factory).space(),
            final(self).facts(final(factory).count()) == relations_in_bodies(
                tree@,
                lo as int,
                hi as int,
                kind@,
                texts(old(classes)@),
                old(self).facts(old(factory).count()),
                old(self).known(old(factory).space()),
            ),
            texts(final(classes)@) == texts(old(classes)@),
        decreases hi - lo, 1nat,
    {
        let ghost t = tree@;
        let ghost k = self.known(factory.space());
        let ghost names = texts(classes@);
        let ghost all = relations_in_bodies(t, lo as int, hi as int, kind@, names, self.facts(factory.count()), k);
        let mut i: usize = lo;
        while i < hi
            invariant
                lo <= i <= hi <= tree@.len(),
                rows_fit(tree@),
                t == tree@,
                self.kept(*old(self)),
                factory.space() == old(factory).space(),
                trimmed(self.file_path@).len() > 0,
                k == self.known(factory.space()),
                names == texts(classes@),
                all == relations_in_bodies(t, i as int, hi as int, kind@, names, self.facts(factory.count()), k),
            decreases hi - i,
        {
            let end: usize = tree.end_of(i, hi);
            if tree.is_kind(i, kind) {
                self.visit(tree, i + 1, end, classes, factory);
            }
            i = end;
        }
    }

    /// Collects the relations of a syntax tree.
    pub fn extract(&mut self, tree: &SyntaxTree, factory: &mut CellFactory)
        requires
            rows_fit(tree@),
            trimmed(old(self).file_path@).len() > 0,
        ensures
            final(self).kept(*old(self)),
            final(factory).space() == old(factory).space(),
            final(self).facts(final(factory).count()) == relations_in(
                tree@,
                0,
                tree@.len() as int,
                Seq::empty(),
                old(self).facts(old(factory).count()),
                old(self).known(old(factory).space()),
            ),
    {
        let mut classes: Vec<String> = Vec::new();
        assert(texts(classes@) =~= Seq::empty());
        let n: usize = tree.nodes.len();
        self.visit(tree, 0, n, &mut classes, factory);
    }
}

fn member(object: &Option<String>, name: &str) -> (r: String)
    ensures
        r@ == member_text(opt_text(*object), name@),
{
    match object {
        Some(o) => dotted(o.as_str(), name),
        None => name.to_owned(),
    }
}

fn parameter_count(tree: &SyntaxTree, lo: usize, hi: usize) -> (r: usize)
    requires
        lo < hi <= tree@.len(),
    ensures
        r == match child_in_role(tree@, lo as int, hi as int, "parameters"@) {
            Some((a, b)) => count_parameters(tree@, a + 1, b),
            None => 0,
        },
{
    let ghost t = tree@;
    match tree.child(lo, hi, "parameters") {
        Some((a, b)) => {
            let mut n: usize = 0;
            let mut i: usize = a + 1;
            while i < b
                invariant
                    a < i <= b <= tree@.len(),
                    t == tree@,
                    n <= i - a,
                    count_parameters(t, a + 1, b as int) == n + count_parameters(t, i as int, b as int),
                decreases b - i,
            {
                let end: usize = tree.end_of(i, b);
                if tree.is_kind(i, "formal_parameter") || tree.is_kind(i, "spread_parameter") {
                    n = n + 1;
                }
                i = end;
            }
            n
        },
        None => 0,
    }
}

fn kind_of_body(tree: &SyntaxTree, i: usize) -> (r: Option<&'static str>)
    requires
        i < tree@.len(),
    ensures
        match r {
            Some(kind) => body_kind(tree@[i as int]) == Some(kind@),
            None => body_kind(tree@[i as int]) is None,
        },
{
    if tree.is_kind(i, "class_declaration") {
        Some("class_body")
    } else if tree.is_kind(i, "interface_declaration") {
        Some("interface_body")
    } else if tree.is_kind(i, "enum_declaration") {
        Some("enum_body")
    } else if tree.is_kind(i, "record_declaration") {
        Some("record_declaration_body")
    } else {
        None
    }
}

} // verus!
