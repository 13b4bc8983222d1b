//! Merging of paths that cannot behave differently from a point on.

use vstd::prelude::*;

use crate::lift::symbolic::{pairs, StateView, SymState};
use crate::lift::tag_paths::copy_conds;
use crate::order::{sort_stable, stable_sorted};
use crate::seqs::{firsts, without_repeats};
use crate::text::{same, texts};

verus! {

/// Order of pinned conditions: by number, the false value first.
pub open spec fn by_condition() -> spec_fn((usize, bool), (usize, bool)) -> bool {
    |a: (usize, bool), b: (usize, bool)| a.0 < b.0 || a.0 == b.0 && (!a.1 || b.1)
}

/// Pinned conditions in order and without repeats.
pub open spec fn ordered(conds: Seq<(usize, bool)>) -> Seq<(usize, bool)> {
    without_repeats(stable_sorted(conds, by_condition()))
}

/// The condition is tested again later.
pub open spec fn is_open(open: Seq<bool>, id: usize) -> bool {
    id < open.len() && open[id as int]
}

/// The conditions with one of them turned around.
pub open spec fn flipped(cube: Seq<(usize, bool)>, k: int) -> Seq<(usize, bool)> {
    cube.update(k, (cube[k].0, !cube[k].1))
}

/// A condition does not matter: it is not tested again, and the paths hold
/// both of its values.
pub open spec fn is_free(cubes: Seq<Seq<(usize, bool)>>, open: Seq<bool>, cube: Seq<(usize, bool)>, k: int) -> bool {
    !is_open(open, cube[k].0) && cubes.contains(flipped(cube, k))
}

/// The conditions without one that does not matter, for each from `k` on.
pub open spec fn reductions(
    cubes: Seq<Seq<(usize, bool)>>,
    open: Seq<bool>,
    cube: Seq<(usize, bool)>,
    k: int,
) -> Seq<Seq<(usize, bool)>>
    decreases cube.len() - k,
{
    if k >= cube.len() {
        Seq::empty()
    } else if is_free(cubes, open, cube, k) {
        seq![cube.remove(k)] + reductions(cubes, open, cube, k + 1)
    } else {
        reductions(cubes, open, cube, k + 1)
    }
}

/// What becomes of one set of conditions in a round of merging.
pub open spec fn merged_once(
    cubes: Seq<Seq<(usize, bool)>>,
    open: Seq<bool>,
    cube: Seq<(usize, bool)>,
) -> Seq<Seq<(usize, bool)>> {
    let reduced = reductions(cubes, open, cube, 0);
    if reduced.len() == 0 {
        seq![cube]
    } else {
        reduced
    }
}

/// What becomes of the first `n` sets of conditions in a round.
pub open spec fn round_of(cubes: Seq<Seq<(usize, bool)>>, open: Seq<bool>, n: int) -> Seq<Seq<(usize, bool)>>
    decreases n,
{
    if n <= 0 {
        Seq::empty()
    } else {
        round_of(cubes, open, n - 1) + merged_once(cubes, open, cubes[n - 1])
    }
}

/// One round of merging.
pub open spec fn merge_round(cubes: Seq<Seq<(usize, bool)>>, open: Seq<bool>) -> Seq<Seq<(usize, bool)>> {
    firsts(round_of(cubes, open, cubes.len() as int))
}

/// No condition can be dropped any more.
pub open spec fn is_settled(cubes: Seq<Seq<(usize, bool)>>, open: Seq<bool>) -> bool {
    forall|i: int| 0 <= i < cubes.len() ==> reductions(cubes, open, #[trigger] cubes[i], 0).len() == 0
}

/// A bound on what can become of `n` conditions.
pub open spec fn weight(n: nat) -> nat
    decreases n,
{
    if n == 0 {
        1
    } else {
        n * weight((n - 1) as nat) + 1
    }
}

pub open spec fn total_weight(cubes: Seq<Seq<(usize, bool)>>) -> nat
    decreases cubes.len(),
{
    if cubes.len() == 0 {
        0
    } else {
        total_weight(cubes.drop_last()) + weight(cubes.last().len())
    }
}

/// Rounds of merging until nothing changes.
pub open spec fn settled(cubes: Seq<Seq<(usize, bool)>>, open: Seq<bool>) -> Seq<Seq<(usize, bool)>>
    decreases total_weight(cubes),
{
    let next = merge_round(cubes, open);
    if !is_settled(cubes, open) && total_weight(next) < total_weight(cubes) {
        settled(next, open)
    } else {
        cubes
    }
}

/// What a path does, apart from its conditions.
pub open spec fn effects_of(st: StateView) -> (Seq<(Seq<char>, Seq<char>)>, Seq<Seq<char>>) {
    (st.writes, st.calls)
}

/// The conditions of the paths with the given effects.
pub open spec fn cubes_with(
    states: Seq<StateView>,
    effects: (Seq<(Seq<char>, Seq<char>)>, Seq<Seq<char>>),
) -> Seq<Seq<(usize, bool)>>
    decreases states.len(),
{
    if states.len() == 0 {
        Seq::empty()
    } else {
        let before = cubes_with(states.drop_last(), effects);
        if effects_of(states.last()) == effects {
            before.push(ordered(states.last().conds))
        } else {
            before
        }
    }
}

/// The different effects of some paths.
pub open spec fn effects_in(states: Seq<StateView>) -> Seq<(Seq<(Seq<char>, Seq<char>)>, Seq<Seq<char>>)> {
    firsts(states.map_values(|s: StateView| effects_of(s)))
}

/// The merged paths for the first `n` different effects.
pub open spec fn merged_groups(states: Seq<StateView>, open: Seq<bool>, n: int) -> Seq<StateView>
    decreases n,
{
    if n <= 0 {
        Seq::empty()
    } else {
        let effects = effects_in(states)[n - 1];
        merged_groups(states, open, n - 1) + settled(firsts(cubes_with(states, effects)), open).map_values(
            |c: Seq<(usize, bool)>| StateView { conds: c, writes: effects.0, calls: effects.1 },
        )
    }
}

/// Paths merged as far as their effects are the same and the conditions in
/// which they differ are not tested again.
pub open spec fn merged_states(states: Seq<StateView>, open: Seq<bool>) -> Seq<StateView> {
    merged_groups(states, open, effects_in(states).len() as int)
}

pub open spec fn cube_views(v: Seq<Vec<(usize, bool)>>) -> Seq<Seq<(usize, bool)>> {
    v.map_values(|c: Vec<(usize, bool)>| c@)
}

pub open spec fn state_views(v: Seq<SymState>) -> Seq<StateView> {
    v.map_values(|s: SymState| s@)
}

fn same_conds(a: &Vec<(usize, bool)>, b: &Vec<(usize, bool)>) -> (r: bool)
    ensures
        r == (a@ == b@),
{
    if a.len() != b.len() {
        return false;
    }
    let mut i: usize = 0;
    while i < a.len()
        invariant
            i <= a@.len() == b@.len(),
            a@.take(i as int) == b@.take(i as int),
        decreases a.len() - i,
    {
        if a[i].0 != b[i].0 || a[i].1 != b[i].1 {
            assert(a@[i as int] != b@[i as int]);
            return false;
        }
        assert(a@.take(i + 1) =~= a@.take(i as int).push(a@[i as int]));
        assert(b@.take(i + 1) =~= b@.take(i as int).push(b@[i as int]));
        i = i + 1;
    }
    assert(a@.take(i as int) =~= a@);
    assert(b@.take(i as int) =~= b@);
    true
}

fn has_conds(cubes: &Vec<Vec<(usize, bool)>>, cube: &Vec<(usize, bool)>) -> (r: bool)
    ensures
        r == cube_views(cubes@).contains(cube@),
{
    let mut i: usize = 0;
    while i < cubes.len()
        invariant
            i <= cubes@.len(),
            forall|j: int| 0 <= j < i ==> (#[trigger] cubes@[j])@ != cube@,
        decreases cubes.len() - i,
    {
        if same_conds(&cubes[i], cube) {
            assert(cube_views(cubes@)[i as int] == cube@);
            return true;
        }
        i = i + 1;
    }
    proof {
        if cube_views(cubes@).contains(cube@) {
            let j = choose|j: int| 0 <= j < cube_views(cubes@).len() && cube_views(cubes@)[j] == cube@;
            assert(cubes@[j]@ == cube@);
        }
    }
    false
}

fn order_conds(conds: Vec<(usize, bool)>) -> (r: Vec<(usize, bool)>)
    ensures
        r@ == ordered(conds@),
{
    let at_most = |a: &(usize, bool), b: &(usize, bool)| -> (t: bool)
        ensures
            t == by_condition()(*a, *b),
        { a.0 < b.0 || a.0 == b.0 && (!a.1 || b.1) };
    let sorted = sort_stable(conds, &at_most, Ghost(by_condition()));
    let mut r: Vec<(usize, bool)> = Vec::new();
    let mut i: usize = 0;
    while i < sorted.len()
        invariant
            i <= sorted@.len(),
            r@ == without_repeats(sorted@.take(i as int)),
        decreases sorted.len() - i,
    {
        let ghost next = sorted@.take(i + 1);
        assert(next.drop_last() =~= sorted@.take(i as int));
        if i == 0 || sorted[i].0 != sorted[i - 1].0 || sorted[i].1 != sorted[i - 1].1 {
            assert(i == 0 || sorted@[i as int] != sorted@[i - 1]);
            let (id, value) = sorted[i];
            r.push((id, value));
            assert(r@ =~= without_repeats(next));
        }
        i = i + 1;
    }
    assert(sorted@.take(i as int) =~= sorted@);
    r
}

proof fn lemma_weight_sum(a: Seq<Seq<(usize, bool)>>, b: Seq<Seq<(usize, bool)>>)
    ensures
        total_weight(a + b) == total_weight(a) + total_weight(b),
    decreases b.len(),
{
    if b.len() == 0 {
        assert(a + b =~= a);
    } else {
        assert((a + b).drop_last() =~= a + b.drop_last());
        lemma_weight_sum(a, b.drop_last());
    }
}

proof fn lemma_firsts_weight(s: Seq<Seq<(usize, bool)>>)
    ensures
        total_weight(firsts(s)) <= total_weight(s),
    decreases s.len(),
{
    if s.len() > 0 {
        lemma_firsts_weight(s.drop_last());
        let f = firsts(s.drop_last());
        assert(f.push(s.last()).drop_last() =~= f);
    }
}

proof fn lemma_reductions_weight(
    cubes: Seq<Seq<(usize, bool)>>,
    open: Seq<bool>,
    cube: Seq<(usize, bool)>,
    k: int,
)
    requires
        0 <= k <= cube.len(),
        cube.len() > 0,
    ensures
        total_weight(reductions(cubes, open, cube, k)) <= (cube.len() - k) * weight((cube.len() - 1) as nat),
    decreases cube.len() - k,
{
    let w = weight((cube.len() - 1) as nat);
    if k < cube.len() {
        lemma_reductions_weight(cubes, open, cube, k + 1);
        let rest = reductions(cubes, open, cube, k + 1);
        let one = seq![cube.remove(k)];
        lemma_weight_sum(one, rest);
        assert(one.drop_last() =~= Seq::empty());
        assert(total_weight(one.drop_last()) == 0);
        assert(total_weight(one) == w);
        let n = cube.len() - k;
        assert(n * w == (n - 1) * w + w) by (nonlinear_arith);
    } else {
        assert(0 * w == 0) by (nonlinear_arith);
    }
}

/// Merging replaces conditions by fewer of them.
proof fn lemma_round_weight(cubes: Seq<Seq<(usize, bool)>>, open: Seq<bool>, n: int)
    requires
        0 <= n <= cubes.len(),
    ensures
        total_weight(round_of(cubes, open, n)) <= total_weight(cubes.take(n)),
        (exists|i: int| 0 <= i < n && reductions(cubes, open, #[trigger] cubes[i], 0).len() > 0) ==> total_weight(
            round_of(cubes, open, n),
        ) < total_weight(cubes.take(n)),
    decreases n,
{
    if n > 0 {
        lemma_round_weight(cubes, open, n - 1);
        let cube = cubes[n - 1];
        let once = merged_once(cubes, open, cube);
        lemma_weight_sum(round_of(cubes, open, n - 1), once);
        assert(cubes.take(n).drop_last() =~= cubes.take(n - 1));
        if reductions(cubes, open, cube, 0).len() == 0 {
            assert(once.drop_last() =~= Seq::empty());
            assert(total_weight(once.drop_last()) == 0);
            assert(total_weight(once) == weight(cube.len()));
        } else {
            lemma_reductions_weight(cubes, open, cube, 0);
        }
    }
}

proof fn lemma_round_shrinks(cubes: Seq<Seq<(usize, bool)>>, open: Seq<bool>)
    requires
        !is_settled(cubes, open),
    ensures
        total_weight(merge_round(cubes, open)) < total_weight(cubes),
{
    lemma_round_weight(cubes, open, cubes.len() as int);
    assert(cubes.take(cubes.len() as int) =~= cubes);
    lemma_firsts_weight(round_of(cubes, open, cubes.len() as int));
}

fn find_open(open: &Vec<bool>, id: usize) -> (r: bool)
    ensures
        r == is_open(open@, id),
{
    id < open.len() && open[id]
}

/// What becomes of one set of conditions in a round.
fn reduce(cubes: &Vec<Vec<(usize, bool)>>, open: &Vec<bool>, cube: &Vec<(usize, bool)>) -> (r: Vec<
    Vec<(usize, bool)>,
>)
    ensures
        cube_views(r@) == reductions(cube_views(cubes@), open@, cube@, 0),
{
    let ghost all = cube_views(cubes@);
    let ghost total = reductions(all, open@, cube@, 0);
    let mut r: Vec<Vec<(usize, bool)>> = Vec::new();
    let mut k: usize = 0;
    assert(cube_views(r@) + total =~= total);
    while k < cube.len()
        invariant
            k <= cube@.len(),
            all == cube_views(cubes@),
            total == reductions(all, open@, cube@, 0),
            total == cube_views(r@) + reductions(all, open@, cube@, k as int),
        decreases cube.len() - k,
    {
        let (id, value) = cube[k];
        let ghost rest = reductions(all, open@, cube@, k + 1);
        if !find_open(open, id) {
            let mut other = copy_conds(cube);
            other.set(k, (id, !value));
            assert(other@ =~= flipped(cube@, k as int));
            if has_conds(cubes, &other) {
                let ghost before = cube_views(r@);
                other.remove(k);
                assert(other@ =~= cube@.remove(k as int));
                let ghost o = other@;
                r.push(other);
                assert(cube_views(r@) =~= before.push(o));
                assert(before + (seq![o] + rest) =~= before.push(o) + rest);
            }
        }
        k = k + 1;
    }
    assert(cube_views(r@) + Seq::<Seq<(usize, bool)>>::empty() =~= cube_views(r@));
    r
}

fn distinct_conds(cubes: Vec<Vec<(usize, bool)>>) -> (r: Vec<Vec<(usize, bool)>>)
    ensures
        cube_views(r@) == firsts(cube_views(cubes@)),
{
    let ghost all = cube_views(cubes@);
    let mut r: Vec<Vec<(usize, bool)>> = Vec::new();
    let mut i: usize = 0;
    assert(cube_views(r@) =~= firsts(all.take(0)));
    while i < cubes.len()
        invariant
            i <= cubes@.len(),
            all == cube_views(cubes@),
            cube_views(r@) == firsts(all.take(i as int)),
        decreases cubes.len() - i,
    {
        assert(all[i as int] == cubes@[i as int]@);
        assert(all.take(i + 1).drop_last() =~= all.take(i as int));
        if !has_conds(&r, &cubes[i]) {
            let ghost before = cube_views(r@);
            let c = copy_conds(&cubes[i]);
            r.push(c);
            assert(cube_views(r@) =~= before.push(all[i as int]));
        }
        i = i + 1;
    }
    assert(all.take(i as int) =~= all);
    r
}

/// Merges sets of conditions until nothing changes.
fn settle(cubes: Vec<Vec<(usize, bool)>>, open: &Vec<bool>) -> (r: Vec<Vec<(usize, bool)>>)
    ensures
        cube_views(r@) == settled(cube_views(cubes@), open@),
{
    let mut current = cubes;
    let ghost total = settled(cube_views(cubes@), open@);
    loop
        invariant
            total == settled(cube_views(cubes@), open@),
            total == settled(cube_views(current@), open@),
        decreases total_weight(cube_views(current@)),
    {
        let ghost all = cube_views(current@);
        let mut next: Vec<Vec<(usize, bool)>> = Vec::new();
        let mut merged: bool = false;
        let mut i: usize = 0;
        assert(cube_views(next@) =~= round_of(all, open@, 0));
        while i < current.len()
            invariant
                i <= current@.len(),
                all == cube_views(current@),
                cube_views(next@) == round_of(all, open@, i as int),
                merged == exists|j: int| 0 <= j < i && reductions(all, open@, #[trigger] all[j], 0).len() > 0,
            decreases current.len() - i,
        {
            let ghost before = next@;
            let ghost was = merged;
            assert(all[i as int] == current@[i as int]@);
            let mut once = reduce(&current, open, &current[i]);
            let ghost o = once@;
            if once.len() > 0 {
                merged = true;
                next.append(&mut once);
                assert(next@ =~= before + o);
                assert(cube_views(next@) =~= cube_views(before) + cube_views(o));
            } else {
                let c = copy_conds(&current[i]);
                next.push(c);
                assert(cube_views(next@) =~= cube_views(before) + seq![all[i as int]]);
            }
            proof {
                assert(cube_views(o).len() == o.len());
                if was {
                    let j = choose|j: int| 0 <= j < i && reductions(all, open@, #[trigger] all[j], 0).len() > 0;
                    assert(0 <= j < i + 1 && reductions(all, open@, all[j], 0).len() > 0);
                }
                if o.len() > 0 {
                    assert(reductions(all, open@, all[i as int], 0).len() > 0);
                }
            }
            i = i + 1;
        }
        if !merged {
            assert(is_settled(all, open@));
            return current;
        }
        proof {
            assert(!is_settled(all, open@));
            lemma_round_shrinks(all, open@);
        }
        current = distinct_conds(next);
    }
}

fn same_pairs(a: &Vec<(String, String)>, b: &Vec<(String, String)>) -> (r: bool)
    ensures
        r == (pairs(a@) == pairs(b@)),
{
    if a.len() != b.len() {
        assert(pairs(a@).len() != pairs(b@).len());
        return false;
    }
    let mut i: usize = 0;
    while i < a.len()
        invariant
            i <= a@.len() == b@.len(),
            forall|k: int| 0 <= k < i ==> pairs(a@)[k] == #[trigger] pairs(b@)[k],
        decreases a.len() - i,
    {
        if !same(a[i].0.as_str(), b[i].0.as_str()) || !same(a[i].1.as_str(), b[i].1.as_str()) {
            assert(pairs(a@)[i as int] != pairs(b@)[i as int]);
            return false;
        }
        i = i + 1;
    }
    assert(pairs(a@) =~= pairs(b@));
    true
}

fn same_texts(a: &Vec<String>, b: &Vec<String>) -> (r: bool)
    ensures
        r == (texts(a@) == texts(b@)),
{
    if a.len() != b.len() {
        assert(texts(a@).len() != texts(b@).len());
        return false;
    }
    let mut i: usize = 0;
    while i < a.len()
        invariant
            i <= a@.len() == b@.len(),
            forall|k: int| 0 <= k < i ==> texts(a@)[k] == #[trigger] texts(b@)[k],
        decreases a.len() - i,
    {
        if !same(a[i].as_str(), b[i].as_str()) {
            assert(texts(a@)[i as int] != texts(b@)[i as int]);
            return false;
        }
        i = i + 1;
    }
    assert(texts(a@) =~= texts(b@));
    true
}

fn same_effects(a: &SymState, b: &SymState) -> (r: bool)
    ensures
        r == (effects_of(a@) == effects_of(b@)),
{
    same_pairs(&a.writes, &b.writes) && same_texts(&a.calls, &b.calls)
}

/// The conditions of the paths that do what the given one does.
fn gather(states: &Vec<SymState>, like: &SymState) -> (r: Vec<Vec<(usize, bool)>>)
    ensures
        cube_views(r@) == cubes_with(state_views(states@), effects_of(like@)),
{
    let ghost all = state_views(states@);
    let mut r: Vec<Vec<(usize, bool)>> = Vec::new();
    let mut i: usize = 0;
    assert(cube_views(r@) =~= cubes_with(all.take(0), effects_of(like@)));
    while i < states.len()
        invariant
            i <= states@.len(),
            all == state_views(states@),
            cube_views(r@) == cubes_with(all.take(i as int), effects_of(like@)),
        decreases states.len() - i,
    {
        assert(all[i as int] == states@[i as int]@);
        assert(all.take(i + 1).drop_last() =~= all.take(i as int));
        if same_effects(&states[i], like) {
            let ghost before = cube_views(r@);
            let c = order_conds(copy_conds(&states[i].conds));
            let ghost cv = c@;
            r.push(c);
            assert(cube_views(r@) =~= before.push(cv));
        }
        i = i + 1;
    }
    assert(all.take(i as int) =~= all);
    r
}

spec fn effect_list(s: Seq<StateView>) -> Seq<(Seq<(Seq<char>, Seq<char>)>, Seq<Seq<char>>)> {
    s.map_values(|s: StateView| effects_of(s))
}

/// The first path for each of the different effects.
fn representatives(states: &Vec<SymState>) -> (r: Vec<usize>)
    ensures
        r@.len() == effects_in(state_views(states@)).len(),
        forall|j: int|
            0 <= j < r@.len() ==> (#[trigger] r@[j]) < states@.len() && effects_of(states@[r@[j] as int]@)
                == effects_in(state_views(states@))[j],
{
    let ghost all = effect_list(state_views(states@));
    let mut r: Vec<usize> = Vec::new();
    let mut i: usize = 0;
    assert(firsts(all.take(0)).len() == 0);
    while i < states.len()
        invariant
            i <= states@.len(),
            all == effect_list(state_views(states@)),
            r@.len() == firsts(all.take(i as int)).len(),
            forall|j: int|
                0 <= j < r@.len() ==> (#[trigger] r@[j]) < states@.len() && effects_of(states@[r@[j] as int]@)
                    == firsts(all.take(i as int))[j],
        decreases states.len() - i,
    {
        let ghost f = firsts(all.take(i as int));
        assert(all[i as int] == effects_of(states@[i as int]@));
        assert(all.take(i + 1).drop_last() =~= all.take(i as int));
        let mut known: bool = false;
        let mut j: usize = 0;
        while j < r.len() && !known
            invariant
                i < states@.len(),
                j <= r@.len() == f.len(),
                all == effect_list(state_views(states@)),
                all[i as int] == effects_of(states@[i as int]@),
                forall|j: int|
                    0 <= j < r@.len() ==> (#[trigger] r@[j]) < states@.len() && effects_of(states@[r@[j] as int]@)
                        == f[j],
                known ==> f.contains(all[i as int]),
                !known ==> forall|m: int| 0 <= m < j ==> #[trigger] f[m] != all[i as int],
            decreases r.len() - j + (if known { 0int } else { 1int }),
        {
            let at: usize = r[j];
            if same_effects(&states[at], &states[i]) {
                assert(f[j as int] == all[i as int]);
                known = true;
            } else {
                j = j + 1;
            }
        }
        if !known {
            assert(!f.contains(all[i as int]));
            r.push(i);
            assert(firsts(all.take(i + 1)) =~= f.push(all[i as int]));
        }
        i = i + 1;
    }
    assert(all.take(i as int) =~= all);
    r
}

/// Merges paths that cannot behave differently.
pub fn merge_states(states: Vec<SymState>, open: &Vec<bool>) -> (r: Vec<SymState>)
    ensures
        state_views(r@) == merged_states(state_views(states@), open@),
{
    let ghost all = state_views(states@);
    let groups = representatives(&states);
    let mut r: Vec<SymState> = Vec::new();
    let mut g: usize = 0;
    assert(state_views(r@) =~= merged_groups(all, open@, 0));
    while g < groups.len()
        invariant
            all == state_views(states@),
            g <= groups@.len() == effects_in(all).len(),
            forall|j: int|
                0 <= j < groups@.len() ==> (#[trigger] groups@[j]) < states@.len() && effects_of(
                    states@[groups@[j] as int]@,
                ) == effects_in(all)[j],
            state_views(r@) == merged_groups(all, open@, g as int),
        decreases groups.len() - g,
    {
        let at: usize = groups[g];
        let ghost effects = effects_in(all)[g as int];
        let cubes = settle(distinct_conds(gather(&states, &states[at])), open);
        let ghost done = state_views(r@);
        let ghost added = cube_views(cubes@).map_values(
            |c: Seq<(usize, bool)>| StateView { conds: c, writes: effects.0, calls: effects.1 },
        );
        let mut k: usize = 0;
        assert(state_views(r@) =~= done + added.take(0));
        while k < cubes.len()
            invariant
                at < states@.len(),
                effects_of(states@[at as int]@) == effects,
                k <= cubes@.len(),
                added == cube_views(cubes@).map_values(
                    |c: Seq<(usize, bool)>| StateView { conds: c, writes: effects.0, calls: effects.1 },
                ),
                state_views(r@) == done + added.take(k as int),
            decreases cubes.len() - k,
        {
            let ghost before = state_views(r@);
            let mut state = states[at].copied();
            state.conds = copy_conds(&cubes[k]);
            let ghost st = state@;
            assert(st == added[k as int]);
            r.push(state);
            k = k + 1;
            assert(state_views(r@) =~= before.push(st));
            assert(state_views(r@) =~= done + added.take(k as int));
        }
        assert(added.take(k as int) =~= added);
        g = g + 1;
    }
    r
}

} // verus!
