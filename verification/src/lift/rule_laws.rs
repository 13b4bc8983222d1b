//! What minimized rules say of the methods they come from.

use vstd::prelude::*;

use crate::lift::decision_extractor::{
    is_class_like, is_method, method_walk, methods_in, package_in, path_outcome, tree_methods, walk_table, with_method,
    MethodsView,
};
use crate::lift::decision_laws::{
    law_table_compresses, law_table_faithful, method_run, row_applies, tri_applies,
};
use crate::lift::decision_walk::WalkView;
use crate::lift::symbolic::MAX_ATOMS;
use crate::lift::syntax::{node_end, text_in_role, NodeView};
use crate::lift::tag_extractor::lemma_row_inputs;
use crate::logic::bits::{bit_at, lemma_set_bit, lemma_space_grows};
use crate::logic::compress::{admits, applies, compressed, consistent, is_answer};
use crate::logic::laws::{law_faithful, lemma_rules_wide};
use crate::logic::qm::{full_mask, in_space};
use crate::logic::table::{CompressedTable, Entry, Error, TableView, Tri, MAX_VARIABLES};

verus! {

/// A table that can be compressed unless it has too many conditions.
pub open spec fn compresses(t: TableView) -> bool {
    t.wf() && t.rows.len() > 0 && t.variables.len() <= MAX_ATOMS && (t.variables.len() <= MAX_VARIABLES ==> consistent(t))
}

proof fn lemma_methods_compress(
    t: Seq<NodeView>,
    terminals: Seq<Seq<char>>,
    package: Option<Seq<char>>,
    classes: Seq<Seq<char>>,
    lo: int,
    hi: int,
    found: MethodsView,
)
    requires
        forall|k: int| 0 <= k < found.methods.len() ==> compresses((#[trigger] found.methods[k]).table),
    ensures
        ({
            let all = methods_in(t, terminals, package, classes, lo, hi, found);
            forall|k: int| 0 <= k < all.methods.len() ==> compresses((#[trigger] all.methods[k]).table)
        }),
    decreases hi - lo,
{
    if lo < hi {
        let end = node_end(t, lo, hi);
        let here = if is_class_like(t[lo]) {
            let inner = classes.push(text_in_role(t, lo, end, "name"@));
            lemma_methods_compress(t, terminals, package, inner, lo + 1, end, found);
            methods_in(t, terminals, package, inner, lo + 1, end, found)
        } else if is_method(t[lo]) {
            if let Ok(Some(w)) = method_walk(t, terminals, lo, end) {
                let table = walk_table(w);
                assert forall|k: int| 0 <= k < table.rows.len() implies (#[trigger] table.rows[k]).when.len()
                    == table.variables.len() by {
                    lemma_row_inputs(w.paths[k].0.conds, w.atoms.len());
                }
                law_table_compresses(t, terminals, lo, end, w);
            }
            with_method(t, terminals, package, classes, lo, end, found)
        } else {
            lemma_methods_compress(t, terminals, package, classes, lo + 1, end, found);
            methods_in(t, terminals, package, classes, lo + 1, end, found)
        };
        assert(methods_in(t, terminals, package, classes, lo, hi, found) == methods_in(
            t,
            terminals,
            package,
            classes,
            end,
            hi,
            here,
        ));
        lemma_methods_compress(t, terminals, package, classes, end, hi, here);
    }
}

/// Every table that is extracted from a source can be compressed, unless it has
/// too many conditions.
pub proof fn law_methods_compress(
    t: Seq<NodeView>,
    terminals: Seq<Seq<char>>,
    k: int,
    r: Result<CompressedTable, Error>,
)
    requires
        0 <= k < tree_methods(t, terminals).methods.len(),
    ensures
        compresses(tree_methods(t, terminals).methods[k].table),
        is_answer(tree_methods(t, terminals).methods[k].table, r) ==> (r is Ok <==> tree_methods(
            t,
            terminals,
        ).methods[k].table.variables.len() <= MAX_VARIABLES),
{
    lemma_methods_compress(
        t,
        terminals,
        package_in(t, 1, t.len() as int),
        Seq::empty(),
        0,
        t.len() as int,
        MethodsView::empty(),
    );
}

/// The minterm of a truth of the first conditions.
pub open spec fn truth_minterm(atoms: Seq<Seq<char>>, truth: spec_fn(Seq<char>) -> bool, n: nat) -> u32
    decreases n,
{
    if n == 0 {
        0
    } else {
        let before = truth_minterm(atoms, truth, (n - 1) as nat);
        if truth(atoms[n - 1]) {
            before | (1u32 << ((n - 1) as u32))
        } else {
            before
        }
    }
}

pub proof fn lemma_truth_minterm(atoms: Seq<Seq<char>>, truth: spec_fn(Seq<char>) -> bool, n: nat)
    requires
        n <= 16,
        n <= atoms.len(),
    ensures
        in_space(truth_minterm(atoms, truth, n), full_mask(n)),
        forall|i: u32| i < n ==> #[trigger] bit_at(truth_minterm(atoms, truth, n), i) == truth(atoms[i as int]),
    decreases n,
{
    if n == 0 {
        assert(0u32 & 0u32 == 0u32) by (bit_vector);
    } else {
        let k = (n - 1) as nat;
        let before = truth_minterm(atoms, truth, k);
        lemma_truth_minterm(atoms, truth, k);
        lemma_space_grows(before, k as u32);
        assert forall|i: u32| i < n implies #[trigger] bit_at(truth_minterm(atoms, truth, n), i) == truth(
            atoms[i as int],
        ) by {
            lemma_set_bit(before, k as u32, i);
        }
    }
}

pub proof fn lemma_applies_as_truth(values: Seq<Tri>, atoms: Seq<Seq<char>>, truth: spec_fn(Seq<char>) -> bool)
    requires
        values.len() == atoms.len(),
        atoms.len() <= 16,
    ensures
        applies(values, truth_minterm(atoms, truth, atoms.len())) == row_applies(values, atoms, truth),
{
    let m = truth_minterm(atoms, truth, atoms.len());
    lemma_truth_minterm(atoms, truth, atoms.len());
    if applies(values, m) {
        assert forall|i: int| 0 <= i < values.len() implies #[trigger] tri_applies(values[i], truth(atoms[i])) by {
            assert(admits(values[(i as u32) as int], bit_at(m, i as u32)));
        }
    }
    if row_applies(values, atoms, truth) {
        assert forall|i: u32| #![trigger bit_at(m, i)] i < values.len() implies admits(values[i as int], bit_at(m, i)) by {
            assert(tri_applies(values[i as int], truth(atoms[i as int])));
        }
    }
}

/// The minimized rules of a method are its specification: whatever truth the
/// conditions have, a rule applies, and every rule that applies gives the
/// outcome of running the method with these conditions.
pub proof fn law_rules_faithful(
    t: Seq<NodeView>,
    terminals: Seq<Seq<char>>,
    lo: int,
    hi: int,
    w: WalkView,
    rules: Seq<Entry>,
    truth: spec_fn(Seq<char>) -> bool,
)
    requires
        method_walk(t, terminals, lo, hi) == Ok::<Option<WalkView>, Seq<char>>(Some(w)),
        walk_table(w).variables.len() <= MAX_VARIABLES,
        compressed(walk_table(w), rules),
    ensures
        exists|k: int|
            0 <= k < rules.len() && row_applies((#[trigger] rules[k]).when, walk_table(w).variables, truth),
        forall|k: int|
            0 <= k < rules.len() && row_applies((#[trigger] rules[k]).when, walk_table(w).variables, truth)
                ==> rules[k].outcome == path_outcome(w, method_run(t, terminals, lo, hi, truth)),
{
    let table = walk_table(w);
    let m = truth_minterm(w.atoms, truth, w.atoms.len());
    law_table_compresses(t, terminals, lo, hi, w);
    law_table_faithful(t, terminals, lo, hi, w, truth);
    lemma_truth_minterm(w.atoms, truth, w.atoms.len());
    assert forall|k: int| 0 <= k < table.rows.len() implies (#[trigger] table.rows[k]).when.len() == table.variables.len() by {
        lemma_row_inputs(w.paths[k].0.conds, w.atoms.len());
    }
    let i = choose|i: int|
        0 <= i < table.rows.len() && row_applies((#[trigger] table.rows[i]).when, table.variables, truth);
    lemma_applies_as_truth(table.rows[i].when, w.atoms, truth);
    law_faithful(table, rules, i, m);
    assert forall|k: int| 0 <= k < rules.len() implies applies((#[trigger] rules[k]).when, m) == row_applies(
        rules[k].when,
        w.atoms,
        truth,
    ) by {
        lemma_rules_wide(table, rules, k);
        lemma_applies_as_truth(rules[k].when, w.atoms, truth);
    }
    let k = choose|k: int|
        0 <= k < rules.len() && (#[trigger] rules[k]).outcome == table.rows[i].outcome && applies(rules[k].when, m);
    assert(row_applies(rules[k].when, table.variables, truth));
}

} // verus!
