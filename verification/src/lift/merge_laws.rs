//! Merging keeps exactly the cases that the paths stood for.

use vstd::prelude::*;

use crate::lift::merging::{
    cubes_with, effects_in, effects_of, flipped, is_free, is_settled, merge_round, merged_groups, merged_once,
    merged_states, ordered, by_condition, reductions, round_of, settled, total_weight,
};
use crate::lift::symbolic::StateView;
use crate::order::{lemma_stable_sorted_contains, stable_sorted};
use crate::seqs::{firsts, lemma_firsts, lemma_without_repeats};

verus! {

/// A pinned condition agrees with the truth of the conditions.
pub open spec fn meets(c: (usize, bool), atoms: Seq<Seq<char>>, truth: spec_fn(Seq<char>) -> bool) -> bool {
    c.0 < atoms.len() && truth(atoms[c.0 as int]) == c.1
}

/// All pinned conditions agree with the truth.
pub open spec fn holds_for(
    conds: Seq<(usize, bool)>,
    atoms: Seq<Seq<char>>,
    truth: spec_fn(Seq<char>) -> bool,
) -> bool {
    forall|k: int| 0 <= k < conds.len() ==> #[trigger] meets(conds[k], atoms, truth)
}

/// Pinned conditions that exist and do not contradict each other.
pub open spec fn valid(conds: Seq<(usize, bool)>, n: nat) -> bool {
    &&& forall|k: int| 0 <= k < conds.len() ==> (#[trigger] conds[k]).0 < n
    &&& forall|j: int, k: int|
        0 <= j < conds.len() && 0 <= k < conds.len() && (#[trigger] conds[j]).0 == (#[trigger] conds[k]).0 ==> conds[j].1
            == conds[k].1
}

pub open spec fn cubes_valid(cubes: Seq<Seq<(usize, bool)>>, n: nat) -> bool {
    forall|i: int| 0 <= i < cubes.len() ==> valid(#[trigger] cubes[i], n)
}

/// One of the sets of conditions agrees with the truth.
pub open spec fn covered(
    cubes: Seq<Seq<(usize, bool)>>,
    atoms: Seq<Seq<char>>,
    truth: spec_fn(Seq<char>) -> bool,
) -> bool {
    exists|i: int| 0 <= i < cubes.len() && holds_for(#[trigger] cubes[i], atoms, truth)
}

/// A path without its conditions.
pub open spec fn bare(st: StateView) -> StateView {
    st.with_conds(Seq::empty())
}

pub open spec fn states_valid(states: Seq<StateView>, n: nat) -> bool {
    forall|i: int| 0 <= i < states.len() ==> valid((#[trigger] states[i]).conds, n)
}

/// One of the paths agrees with the truth.
pub open spec fn some_state(
    states: Seq<StateView>,
    atoms: Seq<Seq<char>>,
    truth: spec_fn(Seq<char>) -> bool,
) -> bool {
    exists|i: int| 0 <= i < states.len() && holds_for((#[trigger] states[i]).conds, atoms, truth)
}

/// Every path that agrees with the truth does the same.
pub open spec fn all_do(
    states: Seq<StateView>,
    atoms: Seq<Seq<char>>,
    truth: spec_fn(Seq<char>) -> bool,
    does: StateView,
) -> bool {
    forall|i: int|
        0 <= i < states.len() && holds_for((#[trigger] states[i]).conds, atoms, truth) ==> bare(states[i]) == does
}

proof fn lemma_fewer(
    a: Seq<(usize, bool)>,
    b: Seq<(usize, bool)>,
    atoms: Seq<Seq<char>>,
    truth: spec_fn(Seq<char>) -> bool,
)
    requires
        forall|x: (usize, bool)| #[trigger] b.contains(x) ==> a.contains(x),
    ensures
        holds_for(a, atoms, truth) ==> holds_for(b, atoms, truth),
        valid(a, atoms.len()) ==> valid(b, atoms.len()),
{
    if holds_for(a, atoms, truth) {
        assert forall|k: int| 0 <= k < b.len() implies #[trigger] meets(b[k], atoms, truth) by {
            assert(b.contains(b[k]));
            let j = choose|j: int| 0 <= j < a.len() && a[j] == b[k];
            assert(meets(a[j], atoms, truth));
        }
    }
    if valid(a, atoms.len()) {
        assert forall|k: int| 0 <= k < b.len() implies (#[trigger] b[k]).0 < atoms.len() by {
            assert(b.contains(b[k]));
            let j = choose|j: int| 0 <= j < a.len() && a[j] == b[k];
            assert(a[j].0 < atoms.len());
        }
        assert forall|j: int, k: int|
            0 <= j < b.len() && 0 <= k < b.len() && (#[trigger] b[j]).0 == (#[trigger] b[k]).0 implies b[j].1
            == b[k].1 by {
            assert(b.contains(b[j]) && b.contains(b[k]));
            let x = choose|x: int| 0 <= x < a.len() && a[x] == b[j];
            let y = choose|y: int| 0 <= y < a.len() && a[y] == b[k];
            assert(a[x].0 == a[y].0);
        }
    }
}

proof fn lemma_ordered(conds: Seq<(usize, bool)>, atoms: Seq<Seq<char>>, truth: spec_fn(Seq<char>) -> bool)
    ensures
        holds_for(ordered(conds), atoms, truth) == holds_for(conds, atoms, truth),
        valid(conds, atoms.len()) ==> valid(ordered(conds), atoms.len()),
{
    let sorted = stable_sorted(conds, by_condition());
    lemma_stable_sorted_contains(conds, by_condition());
    lemma_without_repeats(sorted);
    assert forall|x: (usize, bool)| #[trigger] ordered(conds).contains(x) <==> conds.contains(x) by {
        assert(ordered(conds).contains(x) <==> sorted.contains(x));
    }
    lemma_fewer(conds, ordered(conds), atoms, truth);
    lemma_fewer(ordered(conds), conds, atoms, truth);
}

/// A reduced set of conditions leaves out one of which both values are there.
proof fn lemma_reductions(
    cubes: Seq<Seq<(usize, bool)>>,
    open: Seq<bool>,
    cube: Seq<(usize, bool)>,
    k: int,
    j: int,
) -> (at: int)
    requires
        0 <= k,
        0 <= j < reductions(cubes, open, cube, k).len(),
    ensures
        k <= at < cube.len(),
        is_free(cubes, open, cube, at),
        reductions(cubes, open, cube, k)[j] == cube.remove(at),
    decreases cube.len() - k,
{
    let rest = reductions(cubes, open, cube, k + 1);
    if is_free(cubes, open, cube, k) {
        if j == 0 {
            k
        } else {
            lemma_reductions(cubes, open, cube, k + 1, j - 1)
        }
    } else {
        lemma_reductions(cubes, open, cube, k + 1, j)
    }
}

proof fn lemma_removed(cube: Seq<(usize, bool)>, at: int, atoms: Seq<Seq<char>>, truth: spec_fn(Seq<char>) -> bool)
    requires
        0 <= at < cube.len(),
    ensures
        holds_for(cube, atoms, truth) ==> holds_for(cube.remove(at), atoms, truth),
        valid(cube, atoms.len()) ==> valid(cube.remove(at), atoms.len()),
        holds_for(cube.remove(at), atoms, truth) && cube[at].0 < atoms.len() ==> holds_for(cube, atoms, truth)
            || holds_for(flipped(cube, at), atoms, truth),
{
    let less = cube.remove(at);
    assert forall|x: (usize, bool)| #[trigger] less.contains(x) implies cube.contains(x) by {
        let j = choose|j: int| 0 <= j < less.len() && less[j] == x;
        assert(cube[if j < at { j } else { j + 1 }] == x);
    }
    lemma_fewer(cube, less, atoms, truth);
    if holds_for(less, atoms, truth) && cube[at].0 < atoms.len() {
        let other = flipped(cube, at);
        if meets(cube[at], atoms, truth) {
            assert forall|k: int| 0 <= k < cube.len() implies #[trigger] meets(cube[k], atoms, truth) by {
                if k != at {
                    assert(meets(less[if k < at { k } else { k - 1 }], atoms, truth));
                }
            }
        } else {
            assert forall|k: int| 0 <= k < other.len() implies #[trigger] meets(other[k], atoms, truth) by {
                if k != at {
                    assert(meets(less[if k < at { k } else { k - 1 }], atoms, truth));
                }
            }
        }
    }
}

/// What becomes of one set of conditions covers it, and nothing that was not
/// covered before.
proof fn lemma_merged_once(
    cubes: Seq<Seq<(usize, bool)>>,
    open: Seq<bool>,
    cube: Seq<(usize, bool)>,
    atoms: Seq<Seq<char>>,
    truth: spec_fn(Seq<char>) -> bool,
)
    requires
        cubes.contains(cube),
        cubes_valid(cubes, atoms.len()),
    ensures
        cubes_valid(merged_once(cubes, open, cube), atoms.len()),
        holds_for(cube, atoms, truth) ==> covered(merged_once(cubes, open, cube), atoms, truth),
        covered(merged_once(cubes, open, cube), atoms, truth) ==> covered(cubes, atoms, truth),
{
    let once = merged_once(cubes, open, cube);
    let reduced = reductions(cubes, open, cube, 0);
    let c = choose|c: int| 0 <= c < cubes.len() && cubes[c] == cube;
    assert(valid(cubes[c], atoms.len()));
    if reduced.len() == 0 {
        assert(once[0] == cube);
        if covered(once, atoms, truth) {
            let i = choose|i: int| 0 <= i < once.len() && holds_for(#[trigger] once[i], atoms, truth);
            assert(holds_for(cubes[c], atoms, truth));
        }
    } else {
        assert forall|i: int| 0 <= i < once.len() implies valid(#[trigger] once[i], atoms.len()) by {
            let at = lemma_reductions(cubes, open, cube, 0, i);
            lemma_removed(cube, at, atoms, truth);
        }
        if holds_for(cube, atoms, truth) {
            let at = lemma_reductions(cubes, open, cube, 0, 0);
            lemma_removed(cube, at, atoms, truth);
            assert(holds_for(once[0], atoms, truth));
        }
        if covered(once, atoms, truth) {
            let i = choose|i: int| 0 <= i < once.len() && holds_for(#[trigger] once[i], atoms, truth);
            let at = lemma_reductions(cubes, open, cube, 0, i);
            lemma_removed(cube, at, atoms, truth);
            assert(cube[at].0 < atoms.len());
            let o = choose|o: int| 0 <= o < cubes.len() && cubes[o] == flipped(cube, at);
            if holds_for(cube, atoms, truth) {
                assert(holds_for(cubes[c], atoms, truth));
            } else {
                assert(holds_for(cubes[o], atoms, truth));
            }
        }
    }
}

proof fn lemma_round_of(
    cubes: Seq<Seq<(usize, bool)>>,
    open: Seq<bool>,
    n: int,
    atoms: Seq<Seq<char>>,
    truth: spec_fn(Seq<char>) -> bool,
)
    requires
        0 <= n <= cubes.len(),
        cubes_valid(cubes, atoms.len()),
    ensures
        cubes_valid(round_of(cubes, open, n), atoms.len()),
        forall|i: int|
            0 <= i < n && holds_for(#[trigger] cubes[i], atoms, truth) ==> covered(
                round_of(cubes, open, n),
                atoms,
                truth,
            ),
        covered(round_of(cubes, open, n), atoms, truth) ==> covered(cubes, atoms, truth),
    decreases n,
{
    if n > 0 {
        lemma_round_of(cubes, open, n - 1, atoms, truth);
        let before = round_of(cubes, open, n - 1);
        let once = merged_once(cubes, open, cubes[n - 1]);
        let all = round_of(cubes, open, n);
        assert(cubes.contains(cubes[n - 1]));
        lemma_merged_once(cubes, open, cubes[n - 1], atoms, truth);
        assert(all =~= before + once);
        assert forall|i: int| 0 <= i < all.len() implies valid(#[trigger] all[i], atoms.len()) by {
            if i < before.len() {
                assert(all[i] == before[i]);
            } else {
                assert(all[i] == once[i - before.len()]);
            }
        }
        if covered(before, atoms, truth) {
            let i = choose|i: int| 0 <= i < before.len() && holds_for(#[trigger] before[i], atoms, truth);
            assert(holds_for(all[i], atoms, truth));
        }
        if covered(once, atoms, truth) {
            let i = choose|i: int| 0 <= i < once.len() && holds_for(#[trigger] once[i], atoms, truth);
            assert(holds_for(all[before.len() + i], atoms, truth));
        }
        if covered(all, atoms, truth) {
            let i = choose|i: int| 0 <= i < all.len() && holds_for(#[trigger] all[i], atoms, truth);
            if i < before.len() {
                assert(holds_for(before[i], atoms, truth));
            } else {
                assert(holds_for(once[i - before.len()], atoms, truth));
            }
        }
    }
}

proof fn lemma_firsts_cover(s: Seq<Seq<(usize, bool)>>, atoms: Seq<Seq<char>>, truth: spec_fn(Seq<char>) -> bool)
    ensures
        covered(firsts(s), atoms, truth) == covered(s, atoms, truth),
        cubes_valid(s, atoms.len()) ==> cubes_valid(firsts(s), atoms.len()),
{
    lemma_firsts(s);
    let f = firsts(s);
    if covered(f, atoms, truth) {
        let i = choose|i: int| 0 <= i < f.len() && holds_for(#[trigger] f[i], atoms, truth);
        assert(f.contains(f[i]));
        let j = choose|j: int| 0 <= j < s.len() && s[j] == f[i];
        assert(holds_for(s[j], atoms, truth));
    }
    if covered(s, atoms, truth) {
        let i = choose|i: int| 0 <= i < s.len() && holds_for(#[trigger] s[i], atoms, truth);
        assert(s.contains(s[i]));
        assert(f.contains(s[i]));
        let j = choose|j: int| 0 <= j < f.len() && f[j] == s[i];
        assert(holds_for(f[j], atoms, truth));
    }
    if cubes_valid(s, atoms.len()) {
        assert forall|i: int| 0 <= i < f.len() implies valid(#[trigger] f[i], atoms.len()) by {
            assert(f.contains(f[i]));
            let j = choose|j: int| 0 <= j < s.len() && s[j] == f[i];
            assert(valid(s[j], atoms.len()));
        }
    }
}

/// Merging sets of conditions covers what they covered.
proof fn lemma_settled(
    cubes: Seq<Seq<(usize, bool)>>,
    open: Seq<bool>,
    atoms: Seq<Seq<char>>,
    truth: spec_fn(Seq<char>) -> bool,
)
    requires
        cubes_valid(cubes, atoms.len()),
    ensures
        cubes_valid(settled(cubes, open), atoms.len()),
        covered(settled(cubes, open), atoms, truth) == covered(cubes, atoms, truth),
    decreases total_weight(cubes),
{
    let next = merge_round(cubes, open);
    if !is_settled(cubes, open) && total_weight(next) < total_weight(cubes) {
        let all = round_of(cubes, open, cubes.len() as int);
        lemma_round_of(cubes, open, cubes.len() as int, atoms, truth);
        lemma_firsts_cover(all, atoms, truth);
        if covered(cubes, atoms, truth) {
            let i = choose|i: int| 0 <= i < cubes.len() && holds_for(#[trigger] cubes[i], atoms, truth);
            assert(covered(all, atoms, truth));
        }
        lemma_settled(next, open, atoms, truth);
    }
}

/// A path with the given effects agrees with the truth.
spec fn some_with(
    states: Seq<StateView>,
    effects: (Seq<(Seq<char>, Seq<char>)>, Seq<Seq<char>>),
    atoms: Seq<Seq<char>>,
    truth: spec_fn(Seq<char>) -> bool,
) -> bool {
    exists|i: int|
        0 <= i < states.len() && effects_of(#[trigger] states[i]) == effects && holds_for(
            states[i].conds,
            atoms,
            truth,
        )
}

proof fn lemma_cubes_with(
    states: Seq<StateView>,
    effects: (Seq<(Seq<char>, Seq<char>)>, Seq<Seq<char>>),
    atoms: Seq<Seq<char>>,
    truth: spec_fn(Seq<char>) -> bool,
)
    requires
        states_valid(states, atoms.len()),
    ensures
        cubes_valid(cubes_with(states, effects), atoms.len()),
        covered(cubes_with(states, effects), atoms, truth) == some_with(states, effects, atoms, truth),
    decreases states.len(),
{
    if states.len() > 0 {
        let front = states.drop_last();
        let last = states.last();
        assert forall|i: int| 0 <= i < front.len() implies valid((#[trigger] front[i]).conds, atoms.len()) by {
            assert(valid(states[i].conds, atoms.len()));
        }
        lemma_cubes_with(front, effects, atoms, truth);
        lemma_ordered(last.conds, atoms, truth);
        let before = cubes_with(front, effects);
        let all = cubes_with(states, effects);
        assert(valid(states[states.len() - 1].conds, atoms.len()));
        if covered(before, atoms, truth) {
            let i = choose|i: int| 0 <= i < before.len() && holds_for(#[trigger] before[i], atoms, truth);
            assert(holds_for(all[i], atoms, truth));
            let j = choose|j: int|
                0 <= j < front.len() && effects_of(#[trigger] front[j]) == effects && holds_for(
                    front[j].conds,
                    atoms,
                    truth,
                );
            assert(effects_of(states[j]) == effects);
        }
        if effects_of(last) == effects {
            assert(all[before.len() as int] == ordered(last.conds));
            if holds_for(last.conds, atoms, truth) {
                assert(holds_for(all[before.len() as int], atoms, truth));
                assert(effects_of(states[states.len() - 1]) == effects);
            }
        }
        if covered(all, atoms, truth) {
            let i = choose|i: int| 0 <= i < all.len() && holds_for(#[trigger] all[i], atoms, truth);
            if i < before.len() {
                assert(holds_for(before[i], atoms, truth));
            }
        }
        if some_with(states, effects, atoms, truth) {
            let j = choose|j: int|
                0 <= j < states.len() && effects_of(#[trigger] states[j]) == effects && holds_for(
                    states[j].conds,
                    atoms,
                    truth,
                );
            if j < front.len() {
                assert(effects_of(front[j]) == effects);
            }
        }
    }
}

spec fn group_states(
    states: Seq<StateView>,
    open: Seq<bool>,
    effects: (Seq<(Seq<char>, Seq<char>)>, Seq<Seq<char>>),
) -> Seq<StateView> {
    settled(firsts(cubes_with(states, effects)), open).map_values(
        |c: Seq<(usize, bool)>| StateView { conds: c, writes: effects.0, calls: effects.1 },
    )
}

proof fn lemma_group_states(
    states: Seq<StateView>,
    open: Seq<bool>,
    effects: (Seq<(Seq<char>, Seq<char>)>, Seq<Seq<char>>),
    atoms: Seq<Seq<char>>,
    truth: spec_fn(Seq<char>) -> bool,
)
    requires
        states_valid(states, atoms.len()),
    ensures
        states_valid(group_states(states, open, effects), atoms.len()),
        some_state(group_states(states, open, effects), atoms, truth) == some_with(states, effects, atoms, truth),
{
    let cubes = cubes_with(states, effects);
    lemma_cubes_with(states, effects, atoms, truth);
    lemma_firsts_cover(cubes, atoms, truth);
    lemma_settled(firsts(cubes), open, atoms, truth);
    let s = settled(firsts(cubes), open);
    let g = group_states(states, open, effects);
    assert forall|i: int| 0 <= i < g.len() implies valid((#[trigger] g[i]).conds, atoms.len()) by {
        assert(valid(s[i], atoms.len()));
    }
    if covered(s, atoms, truth) {
        let i = choose|i: int| 0 <= i < s.len() && holds_for(#[trigger] s[i], atoms, truth);
        assert(holds_for(g[i].conds, atoms, truth));
    }
    if some_state(g, atoms, truth) {
        let i = choose|i: int| 0 <= i < g.len() && holds_for((#[trigger] g[i]).conds, atoms, truth);
        assert(holds_for(s[i], atoms, truth));
    }
}

proof fn lemma_merged_groups(
    states: Seq<StateView>,
    open: Seq<bool>,
    n: int,
    atoms: Seq<Seq<char>>,
    truth: spec_fn(Seq<char>) -> bool,
    does: StateView,
)
    requires
        0 <= n <= effects_in(states).len(),
        states_valid(states, atoms.len()),
        all_do(states, atoms, truth, does),
    ensures
        states_valid(merged_groups(states, open, n), atoms.len()),
        all_do(merged_groups(states, open, n), atoms, truth, does),
        forall|i: int|
            0 <= i < n && some_with(states, #[trigger] effects_in(states)[i], atoms, truth) ==> some_state(
                merged_groups(states, open, n),
                atoms,
                truth,
            ),
        some_state(merged_groups(states, open, n), atoms, truth) ==> some_state(states, atoms, truth),
    decreases n,
{
    if n > 0 {
        let effects = effects_in(states)[n - 1];
        let before = merged_groups(states, open, n - 1);
        let group = group_states(states, open, effects);
        let all = merged_groups(states, open, n);
        lemma_merged_groups(states, open, n - 1, atoms, truth, does);
        lemma_group_states(states, open, effects, atoms, truth);
        assert(all =~= before + group);
        assert forall|i: int| 0 <= i < all.len() implies valid((#[trigger] all[i]).conds, atoms.len()) by {
            if i < before.len() {
                assert(all[i] == before[i]);
            } else {
                assert(all[i] == group[i - before.len()]);
            }
        }
        assert forall|i: int|
            0 <= i < all.len() && holds_for((#[trigger] all[i]).conds, atoms, truth) implies bare(all[i]) == does by {
            if i < before.len() {
                assert(all[i] == before[i]);
            } else {
                let g = i - before.len();
                assert(all[i] == group[g]);
                assert(holds_for(group[g].conds, atoms, truth));
                assert(some_state(group, atoms, truth));
                let j = choose|j: int|
                    0 <= j < states.len() && effects_of(#[trigger] states[j]) == effects && holds_for(
                        states[j].conds,
                        atoms,
                        truth,
                    );
                assert(bare(states[j]) == does);
                assert(bare(all[i]) =~= bare(states[j]));
            }
        }
        if some_state(before, atoms, truth) {
            let i = choose|i: int| 0 <= i < before.len() && holds_for((#[trigger] before[i]).conds, atoms, truth);
            assert(holds_for(all[i].conds, atoms, truth));
        }
        if some_state(group, atoms, truth) {
            let i = choose|i: int| 0 <= i < group.len() && holds_for((#[trigger] group[i]).conds, atoms, truth);
            assert(holds_for(all[before.len() + i].conds, atoms, truth));
        }
        if some_state(all, atoms, truth) {
            let i = choose|i: int| 0 <= i < all.len() && holds_for((#[trigger] all[i]).conds, atoms, truth);
            if i < before.len() {
                assert(holds_for(before[i].conds, atoms, truth));
            } else {
                assert(holds_for(group[i - before.len()].conds, atoms, truth));
                let j = choose|j: int|
                    0 <= j < states.len() && effects_of(#[trigger] states[j]) == effects && holds_for(
                        states[j].conds,
                        atoms,
                        truth,
                    );
                assert(holds_for(states[j].conds, atoms, truth));
            }
        }
    }
}

/// Merging neither loses a case nor adds one, and keeps what happens in it.
pub proof fn law_merging_keeps_cases(
    states: Seq<StateView>,
    open: Seq<bool>,
    atoms: Seq<Seq<char>>,
    truth: spec_fn(Seq<char>) -> bool,
    does: StateView,
)
    requires
        states_valid(states, atoms.len()),
        all_do(states, atoms, truth, does),
    ensures
        states_valid(merged_states(states, open), atoms.len()),
        all_do(merged_states(states, open), atoms, truth, does),
        some_state(merged_states(states, open), atoms, truth) == some_state(states, atoms, truth),
{
    let n = effects_in(states).len() as int;
    lemma_merged_groups(states, open, n, atoms, truth, does);
    if some_state(states, atoms, truth) {
        let i = choose|i: int| 0 <= i < states.len() && holds_for((#[trigger] states[i]).conds, atoms, truth);
        let list = states.map_values(|s: StateView| effects_of(s));
        lemma_firsts(list);
        assert(list[i] == effects_of(states[i]));
        assert(list.contains(effects_of(states[i])));
        assert(firsts(list).contains(effects_of(states[i])));
        let k = choose|k: int| 0 <= k < firsts(list).len() && firsts(list)[k] == effects_of(states[i]);
        assert(effects_in(states)[k] == effects_of(states[i]));
        assert(some_with(states, effects_in(states)[k], atoms, truth));
    }
}

} // verus!
