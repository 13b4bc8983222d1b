//! Entities declared in a Java source: packages, types and their members.

use vstd::prelude::*;

use crate::lift::decision_extractor::{enclosing, enclosing_name};
use crate::lift::syntax::{child_in_role, node_end, rows_fit, text_in_role, NodeView, SyntaxTree};
use crate::lines::{opt_text, trimmed};
use crate::model::cell_factory::{entity_cell, next_count, CellFactory};
use crate::model::derivation::DerivationSource;
use crate::model::entity::JavaEntityType;
use crate::model::graph::{Cell, CellView};
use crate::model::space_data::{entry_of, index_view, lemma_view_entry, put_entry};
use crate::model::witness::{WitnessInfo, WitnessView};
use crate::text::{copy_texts, decimal, decimal_text, join, joined, texts};
use crate::text_map::{lookup, with_entry, TextMap};

verus! {

/// What has been found in a source so far, with the number of the last
/// identifier.
#[verifier::ext_equal]
pub struct EntityFacts {
    pub count: int,
    pub package: Option<Seq<char>>,
    pub cells: Seq<CellView>,
    pub ids: Seq<(Seq<char>, Seq<char>)>,
    pub witnesses: Seq<(Seq<char>, WitnessView)>,
}

/// Where facts come from: the space and the file.
#[verifier::ext_equal]
pub struct Origin {
    pub space: Seq<char>,
    pub file: Seq<char>,
}

/// The place of a node in a file.
pub open spec fn witness_of(n: NodeView, file: Seq<char>) -> WitnessView {
    WitnessView {
        file,
        start_line: (n.start_row + 1) as u32,
        end_line: (n.end_row + 1) as u32,
        start_col: n.start_column,
        end_col: n.end_column,
        derivation_source: DerivationSource::TreeSitter,
    }
}

pub fn make_witness(tree: &SyntaxTree, i: usize, file: &str) -> (r: WitnessInfo)
    requires
        i < tree@.len(),
        rows_fit(tree@),
    ensures
        r@ == witness_of(tree@[i as int], file@),
{
    let n = &tree.nodes[i];
    assert(tree@[i as int] == n@);
    WitnessInfo {
        file: file.to_owned(),
        start_line: n.start_row + 1,
        end_line: n.end_row + 1,
        start_col: n.start_column,
        end_col: n.end_column,
        derivation_source: DerivationSource::TreeSitter,
    }
}

/// The facts with one more entity.
pub open spec fn with_entity(
    f: EntityFacts,
    from: Origin,
    entity_type: JavaEntityType,
    fqn: Seq<char>,
    label: Seq<char>,
    witness: WitnessView,
) -> EntityFacts {
    let id = "cell"@ + ":"@ + decimal_text(next_count(f.count) as nat);
    EntityFacts {
        count: next_count(f.count),
        package: f.package,
        cells: f.cells.push(entity_cell(id, from.space, entity_type, label, witness)),
        ids: with_entry(f.ids, fqn, id),
        witnesses: with_entry(f.witnesses, fqn, witness),
    }
}

/// The qualified name of something declared inside the given classes.
pub open spec fn fqn_in(package: Option<Seq<char>>, classes: Seq<Seq<char>>, name: Seq<char>) -> Seq<char> {
    enclosing(package, classes.push(name))
}

/// The first plain or dotted name among the siblings in a range, with its
/// package entity; a package is recorded once.
pub open spec fn with_package(t: Seq<NodeView>, at: int, lo: int, hi: int, f: EntityFacts, from: Origin) -> EntityFacts
    decreases hi - lo,
{
    if lo >= hi {
        f
    } else if t[lo].kind == "scoped_identifier"@ || t[lo].kind == "identifier"@ {
        let name = t[lo].text;
        let after = if lookup(f.ids, name) is Some {
            f
        } else {
            with_entity(f, from, JavaEntityType::Package, name, name, witness_of(t[at], from.file))
        };
        EntityFacts { package: Some(name), ..after }
    } else {
        with_package(t, at, node_end(t, lo, hi), hi, f, from)
    }
}

/// The types of the parameters among the siblings in a range.
pub open spec fn parameter_types(t: Seq<NodeView>, lo: int, hi: int) -> Seq<Seq<char>>
    decreases hi - lo,
{
    if lo >= hi {
        Seq::empty()
    } else {
        let end = node_end(t, lo, hi);
        let rest = parameter_types(t, end, hi);
        match child_in_role(t, lo, end, "type"@) {
            Some((a, _)) => if is_parameter(t[lo]) {
                seq![t[a].text] + rest
            } else {
                rest
            },
            None => rest,
        }
    }
}

pub open spec fn is_parameter(n: NodeView) -> bool {
    n.kind == "formal_parameter"@ || n.kind == "spread_parameter"@
}

/// The parameter types of the method `lo..hi`.
pub open spec fn types_of(t: Seq<NodeView>, lo: int, hi: int) -> Seq<Seq<char>> {
    match child_in_role(t, lo, hi, "parameters"@) {
        Some((a, b)) => parameter_types(t, a + 1, b),
        None => Seq::empty(),
    }
}

/// The facts with the method or constructor `lo..hi`.
pub open spec fn with_callable(
    t: Seq<NodeView>,
    lo: int,
    hi: int,
    classes: Seq<Seq<char>>,
    f: EntityFacts,
    from: Origin,
    is_constructor: bool,
) -> EntityFacts {
    let name = text_in_role(t, lo, hi, "name"@);
    let types = types_of(t, lo, hi);
    let label = name + "("@ + joined(types, ", "@) + ")"@;
    if name.len() == 0 {
        f
    } else if is_constructor {
        with_entity(
            f,
            from,
            JavaEntityType::Constructor,
            fqn_in(f.package, classes, "<init>_"@ + decimal_text(types.len())),
            label,
            witness_of(t[lo], from.file),
        )
    } else {
        with_entity(
            f,
            from,
            JavaEntityType::Method,
            fqn_in(f.package, classes, name),
            label,
            witness_of(t[lo], from.file),
        )
    }
}

/// The facts with the variables among the siblings in a range, which belong to
/// the field declaration at `at`.
pub open spec fn with_fields(
    t: Seq<NodeView>,
    at: int,
    lo: int,
    hi: int,
    classes: Seq<Seq<char>>,
    f: EntityFacts,
    from: Origin,
) -> EntityFacts
    decreases hi - lo,
{
    if lo >= hi {
        f
    } else {
        let end = node_end(t, lo, hi);
        let after = match child_in_role(t, lo, end, "name"@) {
            Some((a, _)) => if t[lo].kind == "variable_declarator"@ {
                with_entity(
                    f,
                    from,
                    JavaEntityType::Field,
                    fqn_in(f.package, classes, t[a].text),
                    t[a].text,
                    witness_of(t[at], from.file),
                )
            } else {
                f
            },
            None => f,
        };
        with_fields(t, at, end, hi, classes, after, from)
    }
}

/// The facts with an enum constant.
pub open spec fn with_constant(
    t: Seq<NodeView>,
    lo: int,
    hi: int,
    classes: Seq<Seq<char>>,
    f: EntityFacts,
    from: Origin,
) -> EntityFacts {
    match child_in_role(t, lo, hi, "name"@) {
        Some((a, _)) => with_entity(
            f,
            from,
            JavaEntityType::EnumConstant,
            fqn_in(f.package, classes, t[a].text),
            t[a].text,
            witness_of(t[lo], from.file),
        ),
        None => f,
    }
}

/// The kind of type that a node declares.
pub open spec fn declared_kind(n: NodeView) -> Option<JavaEntityType> {
    if n.kind == "class_declaration"@ {
        Some(JavaEntityType::Class)
    } else if n.kind == "interface_declaration"@ {
        Some(JavaEntityType::Interface)
    } else if n.kind == "enum_declaration"@ {
        Some(JavaEntityType::Enum)
    } else if n.kind == "record_declaration"@ {
        Some(JavaEntityType::Record)
    } else if n.kind == "annotation_type_declaration"@ {
        Some(JavaEntityType::Annotation)
    } else {
        None
    }
}

pub open spec fn is_type_body(n: NodeView) -> bool {
    ||| n.kind == "class_body"@
    ||| n.kind == "interface_body"@
    ||| n.kind == "enum_body"@
    ||| n.kind == "record_declaration_body"@
    ||| n.kind == "annotation_type_body"@
}

/// The facts with everything that the range declares.
pub open spec fn entities_in(
    t: Seq<NodeView>,
    lo: int,
    hi: int,
    classes: Seq<Seq<char>>,
    f: EntityFacts,
    from: Origin,
) -> EntityFacts
    decreases hi - lo, 0nat,
{
    if lo >= hi {
        f
    } else {
        let end = node_end(t, lo, hi);
        let name = text_in_role(t, lo, end, "name"@);
        let after = if t[lo].kind == "package_declaration"@ {
            with_package(t, lo, lo + 1, end, f, from)
        } else if declared_kind(t[lo]) is Some {
            if name.len() == 0 {
                f
            } else {
                entities_in_bodies(
                    t,
                    lo + 1,
                    end,
                    classes.push(name),
                    with_entity(
                        f,
                        from,
                        declared_kind(t[lo])->0,
                        fqn_in(f.package, classes, name),
                        name,
                        witness_of(t[lo], from.file),
                    ),
                    from,
                )
            }
        } else if t[lo].kind == "method_declaration"@ {
            with_callable(t, lo, end, classes, f, from, false)
        } else if t[lo].kind == "constructor_declaration"@ {
            with_callable(t, lo, end, classes, f, from, true)
        } else if t[lo].kind == "field_declaration"@ {
            with_fields(t, lo, lo + 1, end, classes, f, from)
        } else if t[lo].kind == "enum_constant"@ {
            with_constant(t, lo, end, classes, f, from)
        } else {
            entities_in(t, lo + 1, end, classes, f, from)
        };
        entities_in(t, end, hi, classes, after, from)
    }
}

/// The facts with what the type bodies among the siblings in a range declare.
pub open spec fn entities_in_bodies(
    t: Seq<NodeView>,
    lo: int,
    hi: int,
    classes: Seq<Seq<char>>,
    f: EntityFacts,
    from: Origin,
) -> EntityFacts
    decreases hi - lo, 1nat,
{
    if lo >= hi {
        f
    } else {
        let end = node_end(t, lo, hi);
        let after = if is_type_body(t[lo]) {
            entities_in(t, lo + 1, end, classes, f, from)
        } else {
            f
        };
        entities_in_bodies(t, end, hi, classes, after, from)
    }
}

/// The entries of a map from names to witnesses.
pub open spec fn witness_views(m: TextMap<WitnessInfo>) -> Seq<(Seq<char>, WitnessView)> {
    m.entries().map_values(|e: (Seq<char>, WitnessInfo)| (e.0, e.1@))
}

pub struct EntityExtractor {
    pub cells: Vec<Cell>,
    pub fqn_to_cell_id: TextMap<String>,
    pub fqn_to_witness: TextMap<WitnessInfo>,
    pub package_name: Option<String>,
    pub file_path: String,
}

impl EntityExtractor {
    /// What has been found, with the number of the last identifier.
    pub open spec fn facts(self, count: int) -> EntityFacts {
        EntityFacts {
            count,
            package: opt_text(self.package_name),
            cells: self.cells@.map_values(|c: Cell| c@),
            ids: index_view(self.fqn_to_cell_id),
            witnesses: witness_views(self.fqn_to_witness),
        }
    }

    pub open spec fn empty_facts(count: int) -> EntityFacts {
        EntityFacts {
            count,
            package: None,
            cells: Seq::empty(),
            ids: Seq::empty(),
            witnesses: Seq::empty(),
        }
    }

    pub fn new(file_path: &str) -> (r: Self)
        ensures
            r.file_path@ == file_path@,
            forall|count: int| #[trigger] r.facts(count) == Self::empty_facts(count),
    {
        let r = EntityExtractor {
            cells: Vec::new(),
            fqn_to_cell_id: TextMap::new(),
            fqn_to_witness: TextMap::new(),
            package_name: None,
            file_path: file_path.to_owned(),
        };
        assert forall|count: int| #[trigger] r.facts(count) == Self::empty_facts(count) by {
            assert(r.facts(count) =~= Self::empty_facts(count));
        }
        r
    }

    fn add_entity(
        &mut self,
        factory: &mut CellFactory,
        entity_type: JavaEntityType,
        fqn: String,
        label: &str,
        witness: WitnessInfo,
    )
        requires
            trimmed(witness.file@).len() > 0,
        ensures
            final(factory).space() == old(factory).space(),
            final(factory).count() == next_count(old(factory).count()),
            final(self).file_path == old(self).file_path,
            final(self).facts(final(factory).count()) == with_entity(
                old(self).facts(old(factory).count()),
                Origin { space: old(factory).space(), file: old(self).file_path@ },
                entity_type,
                fqn@,
                label@,
                witness@,
            ),
    {
        let ghost before = self.facts(factory.count());
        let ghost es = self.fqn_to_witness.entries();
        let cell = factory.create_entity_cell(&entity_type, fqn.as_str(), label, &witness);
        let ghost cv = cell@;
        put_entry(&mut self.fqn_to_cell_id, fqn.clone(), cell.id.clone());
        proof {
            let f = |v: WitnessInfo| v@;
            lemma_view_entry(es, f, fqn@, witness);
            assert(before.witnesses =~= es.map_values(|e: (Seq<char>, WitnessInfo)| (e.0, f(e.1))));
            assert(with_entry(es, fqn@, witness).map_values(|e: (Seq<char>, WitnessInfo)| (e.0, f(e.1)))
                =~= with_entry(es, fqn@, witness).map_values(|e: (Seq<char>, WitnessInfo)| (e.0, e.1@)));
        }
        self.fqn_to_witness.insert(fqn, witness);
        self.cells.push(cell);
        assert(self.facts(factory.count()).cells =~= before.cells.push(cv));
    }

    fn qualified(&self, classes: &Vec<String>, name: &str) -> (r: String)
        ensures
            r@ == fqn_in(opt_text(self.package_name), texts(classes@), name@),
    {
        let mut parts = copy_texts(classes.as_slice());
        let ghost before = texts(parts@);
        parts.push(name.to_owned());
        assert(texts(parts@) =~= before.push(name@));
        enclosing_name(&self.package_name, &parts)
    }

    fn extract_package(&mut self, tree: &SyntaxTree, at: usize, hi: usize, factory: &mut CellFactory)
        requires
            at < hi <= tree@.len(),
            rows_fit(tree@),
            trimmed(old(self).file_path@).len() > 0,
        ensures
            final(self).file_path == old(self).file_path,
            final(factory).space() == old(factory).space(),
            final(self).facts(final(factory).count()) == with_package(
                tree@,
                at as int,
                at + 1,
                hi as int,
                old(self).facts(old(factory).count()),
                Origin { space: old(factory).space(), file: old(self).file_path@ },
            ),
    {
        let ghost t = tree@;
        let ghost f = self.facts(factory.count());
        let ghost from = Origin { space: factory.space(), file: self.file_path@ };
        let mut i: usize = at + 1;
        while i < hi
            invariant
                at < i <= hi <= tree@.len(),
                rows_fit(tree@),
                t == tree@,
                *self == *old(self),
                *factory == *old(factory),
                trimmed(self.file_path@).len() > 0,
                f == self.facts(factory.count()),
                from == (Origin { space: factory.space(), file: self.file_path@ }),
                with_package(t, at as int, at + 1, hi as int, f, from) == with_package(
                    t,
                    at as int,
                    i as int,
                    hi as int,
                    f,
                    from,
                ),
            decreases hi - i,
        {
            if tree.is_kind(i, "scoped_identifier") || tree.is_kind(i, "identifier") {
                let name = tree.text(i).to_owned();
                if entry_of(&self.fqn_to_cell_id, name.as_str()).is_none() {
                    let witness = make_witness(tree, at, self.file_path.as_str());
                    self.add_entity(factory, JavaEntityType::Package, name.clone(), name.as_str(), witness);
                }
                let ghost after = self.facts(factory.count());
                self.package_name = Some(name);
                assert(self.facts(factory.count()) =~= EntityFacts { package: Some(name@), ..after });
                return ;
            }
            i = tree.end_of(i, hi);
        }
    }

    fn extract_callable(
        &mut self,
        tree: &SyntaxTree,
        lo: usize,
        hi: usize,
        classes: &Vec<String>,
        factory: &mut CellFactory,
        is_constructor: bool,
    )
        requires
            lo < hi <= tree@.len(),
            rows_fit(tree@),
            trimmed(old(self).file_path@).len() > 0,
        ensures
            final(self).file_path == old(self).file_path,
            final(factory).space() == old(factory).space(),
            final(self).facts(final(factory).count()) == with_callable(
                tree@,
                lo as int,
                hi as int,
                texts(classes@),
                old(self).facts(old(factory).count()),
                Origin { space: old(factory).space(), file: old(self).file_path@ },
                is_constructor,
            ),
    {
        let name = tree.role_text(lo, hi, "name");
        if name.as_str().is_empty() {
            return ;
        }
        let types = list_types(tree, lo, hi);
        assert(texts(types@).len() == types@.len());
        let mut label = name.clone();
        label.append("(");
        label.append(join(types.as_slice(), ", ").as_str());
        label.append(")");
        let witness = make_witness(tree, lo, self.file_path.as_str());
        if is_constructor {
            let mut own = "<init>_".to_owned();
            own.append(decimal(types.len() as u128).as_str());
            let fqn = self.qualified(classes, own.as_str());
            self.add_entity(factory, JavaEntityType::Constructor, fqn, label.as_str(), witness);
        } else {
            let fqn = self.qualified(classes, name.as_str());
            self.add_entity(factory, JavaEntityType::Method, fqn, label.as_str(), witness);
        }
    }

    fn extract_field(
        &mut self,
        tree: &SyntaxTree,
        at: usize,
        hi: usize,
        classes: &Vec<String>,
        factory: &mut CellFactory,
    )
        requires
            at < hi <= tree@.len(),
            rows_fit(tree@),
            trimmed(old(self).file_path@).len() > 0,
        ensures
            final(self).file_path == old(self).file_path,
            final(factory).space() == old(factory).space(),
            final(self).facts(final(factory).count()) == with_fields(
                tree@,
                at as int,
                at + 1,
                hi as int,
                texts(classes@),
                old(self).facts(old(factory).count()),
                Origin { space: old(factory).space(), file: old(self).file_path@ },
            ),
    {
        let ghost t = tree@;
        let ghost names = texts(classes@);
        let ghost from = Origin { space: factory.space(), file: self.file_path@ };
        let ghost all = with_fields(t, at as int, at + 1, hi as int, names, self.facts(factory.count()), from);
        let mut i: usize = at + 1;
        while i < hi
            invariant
                at < i <= hi <= tree@.len(),
                rows_fit(tree@),
                t == tree@,
                names == texts(classes@),
                self.file_path == old(self).file_path,
                factory.space() == old(factory).space(),
                trimmed(self.file_path@).len() > 0,
                from == (Origin { space: factory.space(), file: self.file_path@ }),
                all == with_fields(
                    t,
                    at as int,
                    i as int,
                    hi as int,
                    names,
                    self.facts(factory.count()),
                    from,
                ),
            decreases hi - i,
        {
            let end: usize = tree.end_of(i, hi);
            if tree.is_kind(i, "variable_declarator") {
                match tree.child(i, end, "name") {
                    Some((a, _)) => {
                        let name = tree.text(a);
                        let witness = make_witness(tree, at, self.file_path.as_str());
                        let fqn = self.qualified(classes, name);
                        self.add_entity(factory, JavaEntityType::Field, fqn, name, witness);
                    },
                    None => {},
                }
            }
            i = end;
        }
    }

    fn visit(
        &mut self,
        tree: &SyntaxTree,
        lo: usize,
        hi: usize,
        classes: &mut Vec<String>,
        factory: &mut CellFactory,
    )
        requires
            lo <= hi <= tree@.len(),
            rows_fit(tree@),
            trimmed(old(self).file_path@).len() > 0,
        ensures
            texts(final(classes)@) == texts(old(classes)@),
            final(self).file_path == old(self).file_path,
            final(factory).space() == old(factory).space(),
            final(self).facts(final(factory).count()) == entities_in(
                tree@,
                lo as int,
                hi as int,
                texts(old(classes)@),
                old(self).facts(old(factory).count()),
                Origin { space: old(factory).space(), file: old(self).file_path@ },
            ),
        decreases hi - lo, 0nat,
    {
        let ghost t = tree@;
        let ghost names = texts(classes@);
        let ghost from = Origin { space: factory.space(), file: self.file_path@ };
        let ghost all = entities_in(t, lo as int, hi as int, names, self.facts(factory.count()), from);
        let mut i: usize = lo;
        while i < hi
            invariant
                lo <= i <= hi <= tree@.len(),
                rows_fit(tree@),
                t == tree@,
                names == texts(classes@),
                self.file_path == old(self).file_path,
                factory.space() == old(factory).space(),
                trimmed(self.file_path@).len() > 0,
                from == (Origin { space: factory.space(), file: self.file_path@ }),
                all == entities_in(t, i as int, hi as int, names, self.facts(factory.count()), from),
            decreases hi - i,
        {
            let end: usize = tree.end_of(i, hi);
            let kind = type_kind(tree, i);
            if tree.is_kind(i, "package_declaration") {
                self.extract_package(tree, i, end, factory);
            } else if let Some(entity_type) = kind {
                let name = tree.role_text(i, end, "name");
                if !name.as_str().is_empty() {
                    let ghost x = name@;
                    let witness = make_witness(tree, i, self.file_path.as_str());
                    let fqn = self.qualified(classes, name.as_str());
                    self.add_entity(factory, entity_type, fqn, name.as_str(), witness);
                    classes.push(name);
                    assert(texts(classes@) =~= names.push(x));
                    self.visit_bodies(tree, i + 1, end, classes, factory);
                    assert(texts(classes@).len() == classes@.len());
                    classes.pop();
                    assert(texts(classes@) =~= names.push(x).drop_last());
                    assert(names.push(x).drop_last() =~= names);
                }
            } else if tree.is_kind(i, "method_declaration") {
                self.extract_callable(tree, i, end, classes, factory, false);
            } else if tree.is_kind(i, "constructor_declaration") {
                self.extract_callable(tree, i, end, classes, factory, true);
            } else if tree.is_kind(i, "field_declaration") {
                self.extract_field(tree, i, end, classes, factory);
            } else if tree.is_kind(i, "enum_constant") {
                match tree.child(i, end, "name") {
                    Some((a, _)) => {
                        let name = tree.text(a);
                        let witness = make_witness(tree, i, self.file_path.as_str());
                        let fqn = self.qualified(classes, name);
                        self.add_entity(factory, JavaEntityType::EnumConstant, fqn, name, witness);
                    },
                    None => {},
                }
            } else {
                self.visit(tree, i + 1, end, classes, factory);
            }
            i = end;
        }
    }

    fn visit_bodies(
        &mut self,
        tree: &SyntaxTree,
        lo: usize,
        hi: usize,
        classes: &mut Vec<String>,
        factory: &mut CellFactory,
    )
        requires
            lo <= hi <= tree@.len(),
            rows_fit(tree@),
            trimmed(old(self).file_path@).len() > 0,
        ensures
            texts(final(classes)@) == texts(old(classes)@),
            final(self).file_path == old(self).file_path,
            final(factory).space() == old(factory).space(),
            final(self).facts(final(factory).count()) == entities_in_bodies(
                tree@,
                lo as int,
                hi as int,
                texts(old(classes)@),
                old(self).facts(old(factory).count()),
                Origin { space: old(factory).space(), file: old(self).file_path@ },
            ),
        decreases hi - lo, 1nat,
    {
        let ghost t = tree@;
        let ghost names = texts(classes@);
        let ghost from = Origin { space: factory.space(), file: self.file_path@ };
        let ghost all = entities_in_bodies(t, lo as int, hi as int, names, self.facts(factory.count()), from);
        let mut i: usize = lo;
        while i < hi
            invariant
                lo <= i <= hi <= tree@.len(),
                rows_fit(tree@),
                t == tree@,
                names == texts(classes@),
                self.file_path == old(self).file_path,
                factory.space() == old(factory).space(),
                trimmed(self.file_path@).len() > 0,
                from == (Origin { space: factory.space(), file: self.file_path@ }),
                all == entities_in_bodies(t, i as int, hi as int, names, self.facts(factory.count()), from),
            decreases hi - i,
        {
            let end: usize = tree.end_of(i, hi);
            if tree.is_kind(i, "class_body") || tree.is_kind(i, "interface_body") || tree.is_kind(i, "enum_body")
                || tree.is_kind(i, "record_declaration_body") || tree.is_kind(i, "annotation_type_body") {
                self.visit(tree, i + 1, end, classes, factory);
            }
            i = end;
        }
    }

    /// Collects the entities of a syntax tree.
    pub fn extract(&mut self, tree: &SyntaxTree, factory: &mut CellFactory)
        requires
            rows_fit(tree@),
            trimmed(old(self).file_path@).len() > 0,
        ensures
            final(self).file_path == old(self).file_path,
            final(factory).space() == old(factory).space(),
            final(self).facts(final(factory).count()) == entities_in(
                tree@,
                0,
                tree@.len() as int,
                Seq::empty(),
                old(self).facts(old(factory).count()),
                Origin { space: old(factory).space(), file: old(self).file_path@ },
            ),
    {
        let mut classes: Vec<String> = Vec::new();
        assert(texts(classes@) =~= Seq::empty());
        let n: usize = tree.nodes.len();
        self.visit(tree, 0, n, &mut classes, factory);
    }
}

fn list_types(tree: &SyntaxTree, lo: usize, hi: usize) -> (r: Vec<String>)
    requires
        lo < hi <= tree@.len(),
    ensures
        texts(r@) == types_of(tree@, lo as int, hi as int),
{
    let ghost t = tree@;
    let mut r: Vec<String> = Vec::new();
    assert(texts(r@) =~= Seq::empty());
    match tree.child(lo, hi, "parameters") {
        Some((a, b)) => {
            let ghost all = parameter_types(t, a + 1, b as int);
            let mut i: usize = a + 1;
            assert(texts(r@) + all =~= all);
            while i < b
                invariant
                    a < i <= b <= tree@.len(),
                    t == tree@,
                    all == texts(r@) + parameter_types(t, i as int, b as int),
                decreases b - i,
            {
                let end: usize = tree.end_of(i, b);
                if tree.is_kind(i, "formal_parameter") || tree.is_kind(i, "spread_parameter") {
                    match tree.child(i, end, "type") {
                        Some((c, _)) => {
                            let ghost before = texts(r@);
                            let text = tree.text(c).to_owned();
                            let ghost x = text@;
                            r.push(text);
                            assert(texts(r@) =~= before.push(x));
                            assert(before + (seq![x] + parameter_types(t, end as int, b as int)) =~= before.push(x)
                                + parameter_types(t, end as int, b as int));
                        },
                        None => {},
                    }
                }
                i = end;
            }
            assert(texts(r@) + Seq::<Seq<char>>::empty() =~= texts(r@));
        },
        None => {},
    }
    r
}

fn type_kind(tree: &SyntaxTree, i: usize) -> (r: Option<JavaEntityType>)
    requires
        i < tree@.len(),
    ensures
        r == declared_kind(tree@[i as int]),
{
    if tree.is_kind(i, "class_declaration") {
        Some(JavaEntityType::Class)
    } else if tree.is_kind(i, "interface_declaration") {
        Some(JavaEntityType::Interface)
    } else if tree.is_kind(i, "enum_declaration") {
        Some(JavaEntityType::Enum)
    } else if tree.is_kind(i, "record_declaration") {
        Some(JavaEntityType::Record)
    } else if tree.is_kind(i, "annotation_type_declaration") {
        Some(JavaEntityType::Annotation)
    } else {
        None
    }
}

} // verus!
