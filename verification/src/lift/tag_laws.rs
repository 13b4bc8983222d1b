//! The tables of a screen say what it shows, whatever the conditions are.

use vstd::prelude::*;

use crate::lift::decision_laws::{
    all_false, are_atoms, lemma_assign, lemma_assign_false, lemma_known_later, lemma_row_applies, minterm_truth,
    row_applies, tri_applies,
};
use crate::lift::merge_laws::{holds_for, valid};
use crate::lift::rule_laws::{lemma_applies_as_truth, lemma_truth_minterm, truth_minterm};
use crate::lift::tag_extractor::{lemma_row_inputs, path_outcome, path_table};
use crate::lift::tag_paths::{
    arms_size, assign, assign_false, body_size, walk, walk_arms, walk_each, walk_into, PathSetView, PathView,
};
use crate::lift::tag_tree::{ArmsView, BodyView};
use crate::logic::bits::bit_at;
use crate::logic::compress::{admits, applies, clash, compressed, consistent};
use crate::logic::laws::{law_faithful, lemma_rules_wide};
use crate::logic::table::{Entry, MAX_VARIABLES};
use crate::text::lemma_first_index;

verus! {

/// What a body shows.
pub open spec fn shown(body: BodyView, truth: spec_fn(Seq<char>) -> bool) -> Seq<Seq<char>>
    decreases body,
{
    match body {
        BodyView::End => Seq::empty(),
        BodyView::Text(t, rest) => seq![t] + shown(*rest, truth),
        BodyView::Cond(arms, rest) => shown_of(*arms, truth) + shown(*rest, truth),
    }
}

/// What the branches of a conditional show: the first whose test holds, or the
/// last one.
pub open spec fn shown_of(arms: ArmsView, truth: spec_fn(Seq<char>) -> bool) -> Seq<Seq<char>>
    decreases arms,
{
    match arms {
        ArmsView::Otherwise(body) => shown(*body, truth),
        ArmsView::When(test, body, more) => if truth(test) {
            shown(*body, truth)
        } else {
            shown_of(*more, truth)
        },
    }
}

/// The paths from `from` on that agree with the truth are there exactly where
/// it is reached, show the given texts, and are not two.
spec fn paths_right(
    set: PathSetView,
    from: int,
    truth: spec_fn(Seq<char>) -> bool,
    reached: bool,
    shows: Seq<Seq<char>>,
) -> bool {
    &&& forall|i: int| from <= i < set.paths.len() ==> valid((#[trigger] set.paths[i]).conds, set.atoms.len())
    &&& forall|i: int|
        from <= i < set.paths.len() && holds_for((#[trigger] set.paths[i]).conds, set.atoms, truth) ==> reached
            && set.paths[i].rendered == shows
    &&& reached ==> some_path(set, from, truth)
    &&& forall|i: int, j: int|
        from <= i < j < set.paths.len() && holds_for((#[trigger] set.paths[i]).conds, set.atoms, truth) ==> !holds_for(
            (#[trigger] set.paths[j]).conds,
            set.atoms,
            truth,
        )
}

spec fn some_path(set: PathSetView, from: int, truth: spec_fn(Seq<char>) -> bool) -> bool {
    exists|i: int| from <= i < set.paths.len() && holds_for((#[trigger] set.paths[i]).conds, set.atoms, truth)
}

/// One set of paths continues another.
spec fn continues(a: PathSetView, b: PathSetView) -> bool {
    &&& a.atoms.is_prefix_of(b.atoms)
    &&& are_atoms(MAX_VARIABLES, b.atoms)
    &&& a.paths.is_prefix_of(b.paths)
}

spec fn good(
    a: PathSetView,
    b: PathSetView,
    truth: spec_fn(Seq<char>) -> bool,
    reached: bool,
    shows: Seq<Seq<char>>,
) -> bool {
    continues(a, b) && paths_right(b, a.paths.len() as int, truth, reached, shows)
}

/// Two continuations one after the other.
proof fn lemma_join(
    a: PathSetView,
    b: PathSetView,
    c: PathSetView,
    truth: spec_fn(Seq<char>) -> bool,
    first: bool,
    second: bool,
    x: Seq<Seq<char>>,
    y: Seq<Seq<char>>,
    shows: Seq<Seq<char>>,
)
    requires
        good(a, b, truth, first, x),
        good(b, c, truth, second, y),
        first ==> x == shows,
        second ==> y == shows,
        !(first && second),
    ensures
        good(a, c, truth, first || second, shows),
{
    let n = a.paths.len() as int;
    let m = b.paths.len() as int;
    assert forall|i: int| 0 <= i < m implies #[trigger] c.paths[i] == b.paths[i] by {}
    assert forall|i: int| n <= i < c.paths.len() implies valid((#[trigger] c.paths[i]).conds, c.atoms.len()) by {
        if i < m {
            assert(valid(b.paths[i].conds, b.atoms.len()));
        }
    }
    assert forall|i: int| n <= i < m implies holds_for((#[trigger] c.paths[i]).conds, c.atoms, truth) == holds_for(
        b.paths[i].conds,
        b.atoms,
        truth,
    ) by {
        assert(valid(b.paths[i].conds, b.atoms.len()));
        lemma_known_later(b.paths[i].conds, b.atoms, c.atoms, truth);
    }
    assert forall|i: int|
        n <= i < c.paths.len() && holds_for((#[trigger] c.paths[i]).conds, c.atoms, truth) implies (first || second)
        && c.paths[i].rendered == shows by {
        if i < m {
            assert(holds_for(b.paths[i].conds, b.atoms, truth));
        }
    }
    assert forall|i: int, j: int|
        n <= i < j < c.paths.len() && holds_for((#[trigger] c.paths[i]).conds, c.atoms, truth) implies !holds_for(
        (#[trigger] c.paths[j]).conds,
        c.atoms,
        truth,
    ) by {
        if i < m {
            assert(holds_for(b.paths[i].conds, b.atoms, truth));
            if j < m {
                assert(!holds_for(b.paths[j].conds, b.atoms, truth));
            }
        }
    }
    if first {
        let i = choose|i: int| n <= i < m && holds_for((#[trigger] b.paths[i]).conds, b.atoms, truth);
        assert(holds_for(c.paths[i].conds, c.atoms, truth));
    }
    if second {
        let i = choose|i: int| m <= i < c.paths.len() && holds_for((#[trigger] c.paths[i]).conds, c.atoms, truth);
        assert(holds_for(c.paths[i].conds, c.atoms, truth));
    }
    assert forall|i: int| 0 <= i < n implies a.paths[i] == c.paths[i] by {
        assert(a.paths[i] == b.paths[i]);
    }
    assert(a.paths =~= c.paths.take(n));
    assert forall|i: int| 0 <= i < a.atoms.len() implies a.atoms[i] == c.atoms[i] by {
        assert(a.atoms[i] == b.atoms[i]);
    }
    assert(a.atoms.is_prefix_of(c.atoms));
}

/// Only more conditions are known.
proof fn lemma_wider(
    a: PathSetView,
    atoms: Seq<Seq<char>>,
    b: PathSetView,
    truth: spec_fn(Seq<char>) -> bool,
    reached: bool,
    shows: Seq<Seq<char>>,
)
    requires
        a.atoms.is_prefix_of(atoms),
        good(PathSetView { atoms, paths: a.paths }, b, truth, reached, shows),
    ensures
        good(a, b, truth, reached, shows),
{
    assert forall|i: int| 0 <= i < a.atoms.len() implies a.atoms[i] == b.atoms[i] by {
        assert(a.atoms[i] == atoms[i]);
    }
    assert(a.atoms.is_prefix_of(b.atoms));
}

proof fn lemma_walk(
    body: BodyView,
    set: PathSetView,
    conds: Seq<(usize, bool)>,
    rendered: Seq<Seq<char>>,
    truth: spec_fn(Seq<char>) -> bool,
)
    requires
        are_atoms(MAX_VARIABLES, set.atoms),
        valid(conds, set.atoms.len()),
    ensures
        walk(body, set, conds, rendered) matches Ok(out) ==> good(
            set,
            out,
            truth,
            holds_for(conds, set.atoms, truth),
            rendered + shown(body, truth),
        ),
    decreases body_size(body), 0nat,
{
    if let Ok(out) = walk(body, set, conds, rendered) {
        match body {
            BodyView::End => {
                assert(rendered + shown(body, truth) =~= rendered);
                assert(out.paths[set.paths.len() as int].conds == conds);
                assert(set.paths =~= out.paths.take(set.paths.len() as int));
                if holds_for(conds, set.atoms, truth) {
                    assert(holds_for(out.paths[set.paths.len() as int].conds, out.atoms, truth));
                }
            },
            BodyView::Text(t, rest) => {
                lemma_walk(*rest, set, conds, rendered.push(t), truth);
                assert(rendered.push(t) + shown(*rest, truth) =~= rendered + shown(body, truth));
            },
            BodyView::Cond(arms, rest) => {
                let none = Seq::<Seq<char>>::empty();
                lemma_walk_arms(*arms, *rest, set, conds, rendered, none, truth);
                assert(all_false(none, 0, truth));
                assert(rendered + shown_of(*arms, truth) + shown(*rest, truth) =~= rendered + shown(body, truth));
            },
        }
    }
}

proof fn lemma_walk_arms(
    arms: ArmsView,
    rest: BodyView,
    set: PathSetView,
    conds: Seq<(usize, bool)>,
    rendered: Seq<Seq<char>>,
    prior: Seq<Seq<char>>,
    truth: spec_fn(Seq<char>) -> bool,
)
    requires
        are_atoms(MAX_VARIABLES, set.atoms),
        valid(conds, set.atoms.len()),
    ensures
        walk_arms(arms, rest, set, conds, rendered, prior) matches Ok(out) ==> good(
            set,
            out,
            truth,
            holds_for(conds, set.atoms, truth) && all_false(prior, 0, truth),
            rendered + shown_of(arms, truth) + shown(rest, truth),
        ),
    decreases arms_size(arms) + body_size(rest), 0nat,
{
    lemma_assign_false(MAX_VARIABLES, set.atoms, conds, prior, 0, truth);
    if let Ok(out) = walk_arms(arms, rest, set, conds, rendered, prior) {
        let (atoms, open) = assign_false(MAX_VARIABLES, set.atoms, conds, prior, 0)->Ok_0;
        let known = PathSetView { atoms, paths: set.paths };
        let reached = holds_for(conds, set.atoms, truth) && all_false(prior, 0, truth);
        let shows = rendered + shown_of(arms, truth) + shown(rest, truth);
        match arms {
            ArmsView::Otherwise(body) => {
                if let Some(c) = open {
                    lemma_walk_into(*body, rest, known, c, rendered, truth);
                } else {
                    assert(known.paths =~= known.paths.take(known.paths.len() as int));
                }
                assert(good(known, out, truth, reached, shows));
                lemma_wider(set, atoms, out, truth, reached, shows);
            },
            ArmsView::When(test, body, more) => {
                let taken = match open {
                    None => Ok(known),
                    Some(c) => match assign(MAX_VARIABLES, atoms, c, test, true) {
                        Err(e) => Err(e),
                        Ok((wide, None)) => Ok(PathSetView { atoms: wide, paths: set.paths }),
                        Ok((wide, Some(c))) => walk_into(
                            *body,
                            rest,
                            PathSetView { atoms: wide, paths: set.paths },
                            c,
                            rendered,
                        ),
                    },
                };
                let next = taken->Ok_0;
                let first = reached && truth(test);
                let x = rendered + shown(*body, truth) + shown(rest, truth);
                if let Some(c) = open {
                    lemma_assign(MAX_VARIABLES, atoms, c, test, true, truth);
                    let (wide, left) = assign(MAX_VARIABLES, atoms, c, test, true)->Ok_0;
                    let wider = PathSetView { atoms: wide, paths: set.paths };
                    if let Some(c) = left {
                        lemma_walk_into(*body, rest, wider, c, rendered, truth);
                    } else {
                        assert(wider.paths =~= wider.paths.take(wider.paths.len() as int));
                    }
                    assert(good(wider, next, truth, first, x));
                    lemma_wider(known, wide, next, truth, first, x);
                } else {
                    assert(known.paths =~= known.paths.take(known.paths.len() as int));
                    assert(good(known, next, truth, first, x));
                }
                lemma_wider(set, atoms, next, truth, first, x);
                assert(valid(conds, next.atoms.len()));
                lemma_known_later(conds, set.atoms, next.atoms, truth);
                lemma_walk_arms(*more, rest, next, conds, rendered, prior.push(test), truth);
                let second = holds_for(conds, next.atoms, truth) && all_false(prior.push(test), 0, truth);
                assert(all_false(prior.push(test), 0, truth) == (all_false(prior, 0, truth) && !truth(test))) by {
                    let longer = prior.push(test);
                    if all_false(longer, 0, truth) {
                        assert(!truth(longer[prior.len() as int]));
                        assert forall|j: int| 0 <= j < prior.len() implies !truth(#[trigger] prior[j]) by {
                            assert(longer[j] == prior[j]);
                        }
                    }
                }
                lemma_join(
                    set,
                    next,
                    out,
                    truth,
                    first,
                    second,
                    x,
                    rendered + shown_of(*more, truth) + shown(rest, truth),
                    shows,
                );
            },
        }
    }
}

proof fn lemma_walk_into(
    body: BodyView,
    rest: BodyView,
    set: PathSetView,
    conds: Seq<(usize, bool)>,
    rendered: Seq<Seq<char>>,
    truth: spec_fn(Seq<char>) -> bool,
)
    requires
        are_atoms(MAX_VARIABLES, set.atoms),
        valid(conds, set.atoms.len()),
    ensures
        walk_into(body, rest, set, conds, rendered) matches Ok(out) ==> good(
            set,
            out,
            truth,
            holds_for(conds, set.atoms, truth),
            rendered + shown(body, truth) + shown(rest, truth),
        ),
    decreases body_size(body) + body_size(rest), 0nat,
{
    if let Ok(out) = walk_into(body, rest, set, conds, rendered) {
        let start = PathSetView { atoms: set.atoms, paths: Seq::empty() };
        lemma_sizes(body);
        lemma_sizes(rest);
        lemma_walk(body, start, conds, rendered, truth);
        let sub = walk(body, start, conds, rendered)->Ok_0;
        let wider = PathSetView { atoms: sub.atoms, paths: set.paths };
        let shows = rendered + shown(body, truth);
        lemma_walk_each(rest, wider, sub.paths, 0, shows, truth);
        let reached = some_of(sub.paths, 0, sub.atoms, truth);
        if holds_for(conds, set.atoms, truth) {
            let i = choose|i: int| 0 <= i < sub.paths.len() && holds_for((#[trigger] sub.paths[i]).conds, sub.atoms, truth);
            assert(holds_for(sub.paths[i].conds, sub.atoms, truth));
        }
        assert(reached == holds_for(conds, set.atoms, truth));
        lemma_wider(set, sub.atoms, out, truth, reached, shows + shown(rest, truth));
    }
}

/// One of the paths from `i` on agrees with the truth.
spec fn some_of(paths: Seq<PathView>, i: int, atoms: Seq<Seq<char>>, truth: spec_fn(Seq<char>) -> bool) -> bool {
    exists|j: int| i <= j < paths.len() && holds_for((#[trigger] paths[j]).conds, atoms, truth)
}

proof fn lemma_walk_each(
    rest: BodyView,
    set: PathSetView,
    paths: Seq<PathView>,
    i: int,
    shows: Seq<Seq<char>>,
    truth: spec_fn(Seq<char>) -> bool,
)
    requires
        0 <= i <= paths.len(),
        are_atoms(MAX_VARIABLES, set.atoms),
        forall|j: int| i <= j < paths.len() ==> valid((#[trigger] paths[j]).conds, set.atoms.len()),
        forall|j: int|
            i <= j < paths.len() && holds_for((#[trigger] paths[j]).conds, set.atoms, truth) ==> paths[j].rendered
                == shows,
        forall|j: int, k: int|
            i <= j < k < paths.len() && holds_for((#[trigger] paths[j]).conds, set.atoms, truth) ==> !holds_for(
                (#[trigger] paths[k]).conds,
                set.atoms,
                truth,
            ),
    ensures
        walk_each(rest, set, paths, i) matches Ok(out) ==> good(
            set,
            out,
            truth,
            some_of(paths, i, set.atoms, truth),
            shows + shown(rest, truth),
        ),
    decreases body_size(rest), 1 + paths.len() - i,
{
    if let Ok(out) = walk_each(rest, set, paths, i) {
        if i < paths.len() {
            let p = paths[i];
            lemma_walk(rest, set, p.conds, p.rendered, truth);
            let next = walk(rest, set, p.conds, p.rendered)->Ok_0;
            assert forall|j: int| i <= j < paths.len() implies valid((#[trigger] paths[j]).conds, next.atoms.len())
                && holds_for(paths[j].conds, next.atoms, truth) == holds_for(paths[j].conds, set.atoms, truth) by {
                lemma_known_later(paths[j].conds, set.atoms, next.atoms, truth);
            }
            lemma_walk_each(rest, next, paths, i + 1, shows, truth);
            let first = holds_for(p.conds, set.atoms, truth);
            let second = some_of(paths, i + 1, next.atoms, truth);
            if first && second {
                let j = choose|j: int|
                    i + 1 <= j < paths.len() && holds_for((#[trigger] paths[j]).conds, next.atoms, truth);
                assert(holds_for(paths[i].conds, set.atoms, truth) && holds_for(paths[j].conds, set.atoms, truth));
            }
            lemma_join(
                set,
                next,
                out,
                truth,
                first,
                second,
                p.rendered + shown(rest, truth),
                shows + shown(rest, truth),
                shows + shown(rest, truth),
            );
            assert(some_of(paths, i, set.atoms, truth) == (first || second)) by {
                if second {
                    let j = choose|j: int|
                        i + 1 <= j < paths.len() && holds_for((#[trigger] paths[j]).conds, next.atoms, truth);
                    assert(holds_for(paths[j].conds, set.atoms, truth));
                }
                if some_of(paths, i, set.atoms, truth) {
                    let j = choose|j: int|
                        i <= j < paths.len() && holds_for((#[trigger] paths[j]).conds, set.atoms, truth);
                    if j > i {
                        assert(holds_for(paths[j].conds, next.atoms, truth));
                    }
                }
            }
        } else {
            assert(set.paths =~= set.paths.take(set.paths.len() as int));
        }
    }
}

proof fn lemma_sizes(body: BodyView)
    ensures
        body_size(body) > 0,
{
}

/// All paths through a cluster.
pub open spec fn cluster_paths(arms: ArmsView) -> Result<PathSetView, Seq<char>> {
    walk_arms(
        arms,
        BodyView::End,
        PathSetView { atoms: Seq::empty(), paths: Seq::empty() },
        Seq::empty(),
        Seq::empty(),
        Seq::empty(),
    )
}

proof fn lemma_cluster(arms: ArmsView, set: PathSetView, truth: spec_fn(Seq<char>) -> bool)
    requires
        cluster_paths(arms) == Ok::<PathSetView, Seq<char>>(set),
    ensures
        are_atoms(MAX_VARIABLES, set.atoms),
        paths_right(set, 0, truth, true, shown_of(arms, truth)),
{
    reveal(are_atoms);
    let start = PathSetView { atoms: Seq::empty(), paths: Seq::empty() };
    let none = Seq::<Seq<char>>::empty();
    lemma_walk_arms(arms, BodyView::End, start, Seq::empty(), none, none, truth);
    assert(none + shown_of(arms, truth) + shown(BodyView::End, truth) =~= shown_of(arms, truth));
    assert(all_false(none, 0, truth));
}

/// The table of a screen's cluster is faithful: whatever truth the conditions
/// have, a row applies, and every row that applies tells what is shown with
/// these conditions.
pub proof fn law_screen_faithful(arms: ArmsView, set: PathSetView, truth: spec_fn(Seq<char>) -> bool)
    requires
        cluster_paths(arms) == Ok::<PathSetView, Seq<char>>(set),
    ensures
        exists|i: int|
            0 <= i < path_table(set).rows.len() && row_applies((#[trigger] path_table(set).rows[i]).when, set.atoms, truth),
        forall|i: int|
            0 <= i < path_table(set).rows.len() && row_applies(
                (#[trigger] path_table(set).rows[i]).when,
                set.atoms,
                truth,
            ) ==> path_table(set).rows[i].outcome == path_outcome(set.paths, shown_of(arms, truth)),
{
    lemma_cluster(arms, set, truth);
    let rows = path_table(set).rows;
    assert forall|i: int| 0 <= i < rows.len() implies row_applies((#[trigger] rows[i]).when, set.atoms, truth)
        == holds_for(set.paths[i].conds, set.atoms, truth) by {
        assert(valid(set.paths[i].conds, set.atoms.len()));
        lemma_row_applies(MAX_VARIABLES, set.paths[i].conds, set.atoms, truth);
    }
    assert(some_path(set, 0, truth));
    let k = choose|k: int| 0 <= k < set.paths.len() && holds_for((#[trigger] set.paths[k]).conds, set.atoms, truth);
    assert(row_applies(rows[k].when, set.atoms, truth));
    assert forall|i: int| 0 <= i < rows.len() && row_applies((#[trigger] rows[i]).when, set.atoms, truth) implies rows[i].outcome
        == path_outcome(set.paths, shown_of(arms, truth)) by {
        assert(holds_for(set.paths[i].conds, set.atoms, truth));
    }
}

/// No two rows of the table of a screen's cluster apply under the same truth of
/// the conditions.
pub proof fn law_screen_rows_exclusive(
    arms: ArmsView,
    set: PathSetView,
    truth: spec_fn(Seq<char>) -> bool,
    i: int,
    j: int,
)
    requires
        cluster_paths(arms) == Ok::<PathSetView, Seq<char>>(set),
        0 <= i < path_table(set).rows.len(),
        0 <= j < path_table(set).rows.len(),
        row_applies(path_table(set).rows[i].when, set.atoms, truth),
        row_applies(path_table(set).rows[j].when, set.atoms, truth),
    ensures
        i == j,
{
    lemma_cluster(arms, set, truth);
    assert(valid(set.paths[i].conds, set.atoms.len()) && valid(set.paths[j].conds, set.atoms.len()));
    lemma_row_applies(MAX_VARIABLES, set.paths[i].conds, set.atoms, truth);
    lemma_row_applies(MAX_VARIABLES, set.paths[j].conds, set.atoms, truth);
    if i < j {
        assert(!holds_for(set.paths[j].conds, set.atoms, truth));
    } else if j < i {
        assert(!holds_for(set.paths[i].conds, set.atoms, truth));
    }
}

/// The table of a screen's cluster never contradicts itself, so it can always
/// be compressed.
pub proof fn law_screen_compresses(arms: ArmsView, set: PathSetView)
    requires
        cluster_paths(arms) == Ok::<PathSetView, Seq<char>>(set),
    ensures
        path_table(set).rows.len() > 0,
        path_table(set).variables.len() <= MAX_VARIABLES,
        consistent(path_table(set)),
{
    reveal(are_atoms);
    let table = path_table(set);
    let atoms = set.atoms;
    lemma_cluster(arms, set, minterm_truth(atoms, 0));
    law_screen_faithful(arms, set, minterm_truth(atoms, 0));
    assert forall|q: int, r: int, m: u32| !#[trigger] clash(table, q, r, m) by {
        if clash(table, q, r, m) {
            let truth = minterm_truth(atoms, m);
            assert forall|i: int| 0 <= i < atoms.len() implies #[trigger] truth(atoms[i]) == bit_at(m, i as u32) by {
                lemma_first_index(atoms, atoms[i]);
            }
            lemma_row_inputs(set.paths[q].conds, atoms.len());
            lemma_row_inputs(set.paths[r].conds, atoms.len());
            assert forall|k: int, i: int|
                0 <= k < table.rows.len() && applies(table.rows[k].when, m) && 0 <= i < table.rows[k].when.len()
                    && table.rows[k].when.len() == atoms.len() implies #[trigger] tri_applies(
                table.rows[k].when[i],
                truth(atoms[i]),
            ) by {
                assert(admits(table.rows[k].when[(i as u32) as int], bit_at(m, i as u32)));
            }
            assert(row_applies(table.rows[q].when, atoms, truth));
            assert(row_applies(table.rows[r].when, atoms, truth));
            law_screen_faithful(arms, set, truth);
        }
    }
}

/// The minimized rules of a screen's cluster are its specification: whatever
/// truth the conditions have, a rule applies, and every rule that applies
/// tells what is shown with these conditions.
pub proof fn law_screen_rules_faithful(
    arms: ArmsView,
    set: PathSetView,
    rules: Seq<Entry>,
    truth: spec_fn(Seq<char>) -> bool,
)
    requires
        cluster_paths(arms) == Ok::<PathSetView, Seq<char>>(set),
        compressed(path_table(set), rules),
    ensures
        exists|k: int| 0 <= k < rules.len() && row_applies((#[trigger] rules[k]).when, set.atoms, truth),
        forall|k: int|
            0 <= k < rules.len() && row_applies((#[trigger] rules[k]).when, set.atoms, truth) ==> rules[k].outcome
                == path_outcome(set.paths, shown_of(arms, truth)),
{
    let table = path_table(set);
    let atoms = set.atoms;
    let m = truth_minterm(atoms, truth, atoms.len());
    law_screen_compresses(arms, set);
    law_screen_faithful(arms, set, truth);
    lemma_truth_minterm(atoms, truth, atoms.len());
    assert forall|k: int| 0 <= k < table.rows.len() implies (#[trigger] table.rows[k]).when.len() == table.variables.len() by {
        lemma_row_inputs(set.paths[k].conds, atoms.len());
    }
    let i = choose|i: int| 0 <= i < table.rows.len() && row_applies((#[trigger] table.rows[i]).when, atoms, truth);
    lemma_applies_as_truth(table.rows[i].when, atoms, truth);
    law_faithful(table, rules, i, m);
    assert forall|k: int| 0 <= k < rules.len() implies applies((#[trigger] rules[k]).when, m) == row_applies(
        rules[k].when,
        atoms,
        truth,
    ) by {
        lemma_rules_wide(table, rules, k);
        lemma_applies_as_truth(rules[k].when, atoms, truth);
    }
    let k = choose|k: int|
        0 <= k < rules.len() && (#[trigger] rules[k]).outcome == table.rows[i].outcome && applies(rules[k].when, m);
    assert(row_applies(rules[k].when, atoms, truth));
}

} // verus!
