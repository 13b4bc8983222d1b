//! Cube-based heuristic minimization for tables too wide for exact QM.
//!
//! Exact Quine-McCluskey enumerates the 2^n minterm space, which is
//! infeasible past ~12 variables. Observed paths, however, already ARE
//! cubes ([`Tri`] vectors), so in the Espresso spirit we minimize without
//! ever enumerating: each ON cube is EXPANDed (literals freed one by one)
//! as far as it can go without intersecting any OFF cube — unobserved
//! space is implicitly don't-care, exactly as in the exact path — and an
//! essential-first greedy cover selects the rules.
//!
//! Guarantees: every rule is conflict-free with observed other-outcome
//! rows, every observed row is covered, and each rule is maximally
//! expanded (prime with respect to the OFF list). The cover is
//! near-minimal in practice but, unlike the exact path, not guaranteed
//! minimum.

use vstd::prelude::*;

use crate::logic::table::Tri;
use crate::order::{lemma_stable_sorted_contains, sort_stable, stable_sorted};
use crate::seqs::{
    lemma_filter_contains, lemma_filter_ends, lemma_filter_nonempty, lemma_filter_shrinks, lemma_filter_step,
    lemma_without_repeats, without_repeats,
};

verus! {

/// A product term over ≤64 variables: bit i of `pos` set = variable i must
/// be true; bit i of `neg` set = must be false; neither = don't care.
#[derive(Debug, Clone, Copy, PartialEq, Eq, Hash, PartialOrd, Ord, Structural)]
pub struct BitCube {
    pub pos: u64,
    pub neg: u64,
}

/// Bit `i` of `x` is set.
pub open spec fn bit64(x: u64, i: u64) -> bool {
    (x >> i) & 1 == 1
}

pub open spec fn tri_at(c: BitCube, i: u64) -> Tri {
    if bit64(c.pos, i) {
        Tri::True
    } else if bit64(c.neg, i) {
        Tri::False
    } else {
        Tri::Any
    }
}

impl BitCube {
    /// No variable must be both true and false.
    pub open spec fn consistent(self) -> bool {
        self.pos & self.neg == 0
    }

    /// The full assignment `a` satisfies every literal.
    pub open spec fn admits(self, a: u64) -> bool {
        a & self.pos == self.pos && a & self.neg == 0
    }

    /// No literal of one cube contradicts a literal of the other.
    pub open spec fn meets(self, other: Self) -> bool {
        self.pos & other.neg == 0 && self.neg & other.pos == 0
    }

    /// Every literal of `self` is a literal of `inner`.
    pub open spec fn subsumes(self, inner: Self) -> bool {
        self.pos & !inner.pos == 0 && self.neg & !inner.neg == 0
    }

    pub fn from_tris(tris: &[Tri]) -> (r: Self)
        requires
            tris@.len() <= 64,
        ensures
            forall|i: u64| i < 64 ==> #[trigger] bit64(r.pos, i) == (i < tris@.len() && tris@[i as int] == Tri::True),
            forall|i: u64| i < 64 ==> #[trigger] bit64(r.neg, i) == (i < tris@.len() && tris@[i as int] == Tri::False),
            r.consistent(),
    {
        let mut cube = Self { pos: 0, neg: 0 };
        let mut i: usize = 0;
        proof {
            assert forall|j: u64| j < 64 implies !#[trigger] bit64(0, j) by {
                assert((0u64 >> j) & 1 == 0) by (bit_vector);
            }
            assert(0u64 & 0u64 == 0) by (bit_vector);
        }
        while i < tris.len()
            invariant
                i <= tris.len(),
                tris@.len() <= 64,
                forall|j: u64| j < 64 ==> #[trigger] bit64(cube.pos, j) == (j < i && tris@[j as int] == Tri::True),
                forall|j: u64| j < 64 ==> #[trigger] bit64(cube.neg, j) == (j < i && tris@[j as int] == Tri::False),
                cube.consistent(),
            decreases tris.len() - i,
        {
            let k: u64 = i as u64;
            let ghost old_pos = cube.pos;
            let ghost old_neg = cube.neg;
            proof {
                assert(!bit64(old_pos, k));
                assert(!bit64(old_neg, k));
                lemma_set_keeps_apart(old_pos, old_neg, k);
                assert forall|j: u64| j < 64 implies #[trigger] bit64(old_pos | (1u64 << k), j) == (bit64(old_pos, j)
                    || j == k) by {
                    lemma_set_bit64(old_pos, k, j);
                }
                assert forall|j: u64| j < 64 implies #[trigger] bit64(old_neg | (1u64 << k), j) == (bit64(old_neg, j)
                    || j == k) by {
                    lemma_set_bit64(old_neg, k, j);
                }
            }
            match tris[i] {
                Tri::True => {
                    cube = Self { pos: cube.pos | (1u64 << k), neg: cube.neg };
                },
                Tri::False => {
                    cube = Self { pos: cube.pos, neg: cube.neg | (1u64 << k) };
                },
                Tri::Any => {},
            }
            i = i + 1;
        }
        cube
    }

    pub fn to_tris(self, n: usize) -> (r: Vec<Tri>)
        requires
            n <= 64,
        ensures
            r@ == Seq::new(n as nat, |i: int| tri_at(self, i as u64)),
    {
        let mut r: Vec<Tri> = Vec::new();
        let mut i: usize = 0;
        while i < n
            invariant
                i <= n,
                n <= 64,
                r@ == Seq::new(i as nat, |i: int| tri_at(self, i as u64)),
            decreases n - i,
        {
            let k: u64 = i as u64;
            let t = if (self.pos >> k) & 1 == 1 {
                Tri::True
            } else if (self.neg >> k) & 1 == 1 {
                Tri::False
            } else {
                Tri::Any
            };
            r.push(t);
            i = i + 1;
            assert(r@ =~= Seq::new(i as nat, |i: int| tri_at(self, i as u64)));
        }
        r
    }

    /// Do two cubes share at least one full assignment?
    pub fn intersects(self, other: Self) -> (r: bool)
        ensures
            r == self.meets(other),
            self.consistent() && other.consistent() ==> (r <==> exists|a: u64| #[trigger]
                self.admits(a) && other.admits(a)),
    {
        let r = self.pos & other.neg == 0 && self.neg & other.pos == 0;
        proof {
            if self.consistent() && other.consistent() {
                law_intersects(self, other);
            }
        }
        r
    }

    /// Is every assignment of `inner` matched by `self`?
    pub fn contains(self, inner: Self) -> (r: bool)
        ensures
            r == self.subsumes(inner),
            inner.consistent() ==> (r <==> forall|a: u64| #[trigger] inner.admits(a) ==> self.admits(a)),
    {
        let r = self.pos & !inner.pos == 0 && self.neg & !inner.neg == 0;
        proof {
            if inner.consistent() {
                law_contains(self, inner);
            }
        }
        r
    }

    /// A witness assignment inside the intersection of two cubes
    /// (unconstrained variables default to false).
    pub fn intersection_witness(self, other: Self, n: usize) -> (r: Vec<bool>)
        requires
            n <= 64,
        ensures
            r@ == Seq::new(n as nat, |i: int| bit64(self.pos | other.pos, i as u64)),
            self.consistent() && other.consistent() && self.meets(other) ==> self.admits(self.pos | other.pos)
                && other.admits(self.pos | other.pos),
    {
        let pos: u64 = self.pos | other.pos;
        let mut r: Vec<bool> = Vec::new();
        let mut i: usize = 0;
        while i < n
            invariant
                i <= n,
                n <= 64,
                r@ == Seq::new(i as nat, |i: int| bit64(pos, i as u64)),
            decreases n - i,
        {
            let k: u64 = i as u64;
            r.push((pos >> k) & 1 == 1);
            i = i + 1;
            assert(r@ =~= Seq::new(i as nat, |i: int| bit64(pos, i as u64)));
        }
        proof {
            if self.consistent() && other.consistent() && self.meets(other) {
                lemma_witness(self.pos, self.neg, other.pos, other.neg);
            }
        }
        r
    }
}

proof fn lemma_set_bit64(x: u64, i: u64, j: u64)
    by (bit_vector)
    requires
        i < 64,
        j < 64,
    ensures
        bit64(x | (1u64 << i), j) == (bit64(x, j) || i == j),
{
}

proof fn lemma_set_keeps_apart(p: u64, q: u64, i: u64)
    by (bit_vector)
    requires
        i < 64,
        p & q == 0,
        !bit64(p, i),
        !bit64(q, i),
    ensures
        (p | (1u64 << i)) & q == 0,
        p & (q | (1u64 << i)) == 0,
{
}

proof fn lemma_witness(p: u64, q: u64, r: u64, s: u64)
    by (bit_vector)
    requires
        p & q == 0,
        r & s == 0,
        p & s == 0,
        q & r == 0,
    ensures
        (p | r) & p == p,
        (p | r) & q == 0,
        (p | r) & r == r,
        (p | r) & s == 0,
{
}

proof fn lemma_common(p: u64, q: u64, r: u64, s: u64, a: u64)
    by (bit_vector)
    requires
        a & p == p,
        a & q == 0,
        a & r == r,
        a & s == 0,
    ensures
        p & s == 0,
        q & r == 0,
{
}

/// Two cubes meet exactly when some full assignment satisfies both.
pub proof fn law_intersects(c: BitCube, d: BitCube)
    requires
        c.consistent(),
        d.consistent(),
    ensures
        c.meets(d) <==> exists|a: u64| #[trigger] c.admits(a) && d.admits(a),
{
    if c.meets(d) {
        lemma_witness(c.pos, c.neg, d.pos, d.neg);
        assert(c.admits(c.pos | d.pos) && d.admits(c.pos | d.pos));
    }
    if exists|a: u64| #[trigger] c.admits(a) && d.admits(a) {
        let a = choose|a: u64| #[trigger] c.admits(a) && d.admits(a);
        lemma_common(c.pos, c.neg, d.pos, d.neg, a);
    }
}

proof fn lemma_within(p: u64, q: u64, r: u64, s: u64, a: u64)
    by (bit_vector)
    requires
        p & !r == 0,
        q & !s == 0,
        a & r == r,
        a & s == 0,
    ensures
        a & p == p,
        a & q == 0,
{
}

proof fn lemma_extremes(p: u64, q: u64, r: u64, s: u64)
    by (bit_vector)
    requires
        r & s == 0,
    ensures
        r & r == r,
        !s & r == r,
        !s & s == 0,
        r & p == p ==> p & !r == 0,
        !s & q == 0 ==> q & !s == 0,
{
}

/// One cube contains another exactly when it admits all that the other admits.
pub proof fn law_contains(c: BitCube, inner: BitCube)
    requires
        inner.consistent(),
    ensures
        c.subsumes(inner) <==> forall|a: u64| #[trigger] inner.admits(a) ==> c.admits(a),
{
    if c.subsumes(inner) {
        assert forall|a: u64| #[trigger] inner.admits(a) implies c.admits(a) by {
            lemma_within(c.pos, c.neg, inner.pos, inner.neg, a);
        }
    }
    if forall|a: u64| #[trigger] inner.admits(a) ==> c.admits(a) {
        lemma_extremes(c.pos, c.neg, inner.pos, inner.neg);
        assert(inner.admits(inner.pos));
        assert(inner.admits(!inner.neg));
    }
}

/// Writing a cube out as values undoes reading it from values.
pub proof fn law_round_trip(tris: Seq<Tri>, c: BitCube)
    requires
        tris.len() <= 64,
        forall|i: u64| i < 64 ==> #[trigger] bit64(c.pos, i) == (i < tris.len() && tris[i as int] == Tri::True),
        forall|i: u64| i < 64 ==> #[trigger] bit64(c.neg, i) == (i < tris.len() && tris[i as int] == Tri::False),
    ensures
        Seq::new(tris.len(), |i: int| tri_at(c, i as u64)) == tris,
{
    assert forall|i: int| 0 <= i < tris.len() implies tri_at(c, i as u64) == tris[i] by {
        let k = i as u64;
        assert(bit64(c.pos, k) == (tris[k as int] == Tri::True));
        assert(bit64(c.neg, k) == (tris[k as int] == Tri::False));
    }
    assert(Seq::new(tris.len(), |i: int| tri_at(c, i as u64)) =~= tris);
}

/// The cube without its literal for variable `i`.
pub open spec fn without(c: BitCube, i: u64) -> BitCube {
    BitCube { pos: c.pos & !(1u64 << i), neg: c.neg & !(1u64 << i) }
}

pub open spec fn has_literal(c: BitCube, i: u64) -> bool {
    c.pos & (1u64 << i) != 0 || c.neg & (1u64 << i) != 0
}

/// The cube touches one of the OFF cubes.
pub open spec fn touches(c: BitCube, off: Seq<BitCube>) -> bool {
    exists|k: int| 0 <= k < off.len() && c.meets(#[trigger] off[k])
}

/// Literals `i` to `n` freed in index order as long as no OFF cube is touched.
pub open spec fn expanded(c: BitCube, off: Seq<BitCube>, i: nat, n: nat) -> BitCube
    decreases n - i,
{
    if i >= n {
        c
    } else if has_literal(c, i as u64) && !touches(without(c, i as u64), off) {
        expanded(without(c, i as u64), off, i + 1, n)
    } else {
        expanded(c, off, i + 1, n)
    }
}

proof fn lemma_without(p: u64, q: u64, i: u64, j: u64)
    by (bit_vector)
    requires
        i < 64,
        j < 64,
    ensures
        (p & !(1u64 << i)) & !p == 0,
        p & !p == 0,
        p & (1u64 << j) == 0 ==> (p & !(1u64 << i)) & (1u64 << j) == 0,
        p & q == 0 ==> (p & !(1u64 << i)) & (q & !(1u64 << i)) == 0,
        p & (1u64 << i) == 0 ==> p & !(1u64 << i) == p,
{
}

proof fn lemma_fewer_literals(p: u64, q: u64, o: u64, i: u64)
    by (bit_vector)
    requires
        p & !q == 0,
        i < 64,
    ensures
        q & o == 0 ==> p & o == 0,
        (p & !(1u64 << i)) & !(q & !(1u64 << i)) == 0,
        p & q == p,
{
}

proof fn lemma_chain(p: u64, q: u64, r: u64)
    by (bit_vector)
    ensures
        p & !q == 0 && q & !r == 0 ==> p & !r == 0,
        p & !q == 0 && q & !p == 0 ==> p == q,
        p & !p == 0,
{
}

pub proof fn lemma_subsumes_chain(a: BitCube, b: BitCube, c: BitCube)
    ensures
        a.subsumes(a),
        a.subsumes(b) && b.subsumes(c) ==> a.subsumes(c),
        a.subsumes(b) && b.subsumes(a) ==> a == b,
{
    lemma_chain(a.pos, b.pos, c.pos);
    lemma_chain(a.neg, b.neg, c.neg);
}

/// A more general cube touches whatever the more special one does.
proof fn lemma_touches_monotone(a: BitCube, b: BitCube, off: Seq<BitCube>)
    requires
        a.subsumes(b),
        touches(b, off),
    ensures
        touches(a, off),
{
    let k = choose|k: int| 0 <= k < off.len() && b.meets(#[trigger] off[k]);
    lemma_fewer_literals(a.pos, b.pos, off[k].neg, 0);
    lemma_fewer_literals(a.neg, b.neg, off[k].pos, 0);
    assert(a.meets(off[k]));
}

/// Expansion only frees literals, touches no OFF cube that the cube did not
/// touch, and stops where freeing any further literal would touch one.
pub proof fn law_expanded(c: BitCube, off: Seq<BitCube>, i: nat, n: nat)
    requires
        n <= 64,
    ensures
        expanded(c, off, i, n).subsumes(c),
        !touches(c, off) ==> !touches(expanded(c, off, i, n), off),
        forall|j: u64|
            i <= j < n && #[trigger] has_literal(expanded(c, off, i, n), j) ==> touches(
                without(expanded(c, off, i, n), j),
                off,
            ),
    decreases n - i,
{
    let e = expanded(c, off, i, n);
    lemma_subsumes_chain(c, c, c);
    if i < n {
        let k = i as u64;
        let w = without(c, k);
        lemma_without(c.pos, c.neg, k, k);
        lemma_without(c.neg, c.pos, k, k);
        if has_literal(c, k) && !touches(w, off) {
            law_expanded(w, off, i + 1, n);
            lemma_subsumes_chain(e, w, c);
            assert(!has_literal(e, k)) by {
                lemma_no_literal(w.pos, e.pos, k);
                lemma_no_literal(w.neg, e.neg, k);
                lemma_cleared(c.pos, k);
                lemma_cleared(c.neg, k);
            }
        } else {
            law_expanded(c, off, i + 1, n);
            if has_literal(e, k) {
                lemma_no_literal(c.pos, e.pos, k);
                lemma_no_literal(c.neg, e.neg, k);
                assert(touches(w, off));
                lemma_fewer_literals(e.pos, c.pos, 0, k);
                lemma_fewer_literals(e.neg, c.neg, 0, k);
                assert(without(e, k).subsumes(w));
                lemma_touches_monotone(without(e, k), w, off);
            }
        }
        assert forall|j: u64| i <= j < n && #[trigger] has_literal(e, j) implies touches(without(e, j), off) by {
            if j > i {
                assert(i + 1 <= j);
            }
        }
    }
}

proof fn lemma_no_literal(p: u64, e: u64, i: u64)
    by (bit_vector)
    requires
        e & !p == 0,
    ensures
        p & (1u64 << i) == 0 ==> e & (1u64 << i) == 0,
{
}

proof fn lemma_cleared(p: u64, i: u64)
    by (bit_vector)
    ensures
        (p & !(1u64 << i)) & (1u64 << i) == 0,
{
}

fn touches_any(c: BitCube, off: &[BitCube]) -> (r: bool)
    ensures
        r == touches(c, off@),
{
    let mut i: usize = 0;
    while i < off.len()
        invariant
            i <= off.len(),
            forall|k: int| 0 <= k < i ==> !c.meets(#[trigger] off@[k]),
        decreases off.len() - i,
    {
        if c.intersects(off[i]) {
            return true;
        }
        i = i + 1;
    }
    false
}

/// Free as many literals of `cube` as possible without touching any OFF
/// cube. Deterministic: variables are tried in index order.
pub fn expand(cube: BitCube, off: &[BitCube], n: usize) -> (r: BitCube)
    requires
        n <= 64,
    ensures
        r == expanded(cube, off@, 0, n as nat),
{
    let mut c = cube;
    let mut i: usize = 0;
    while i < n
        invariant
            i <= n,
            n <= 64,
            expanded(cube, off@, 0, n as nat) == expanded(c, off@, i as nat, n as nat),
        decreases n - i,
    {
        let k: u64 = i as u64;
        let bit: u64 = 1u64 << k;
        if c.pos & bit != 0 || c.neg & bit != 0 {
            let attempt = BitCube { pos: c.pos & !bit, neg: c.neg & !bit };
            assert(attempt == without(c, k));
            if !touches_any(attempt, off) {
                c = attempt;
            }
        }
        i = i + 1;
    }
    c
}

/// The number of bits set in `x`.
pub open spec fn ones(x: u64) -> nat
    decreases x,
{
    if x == 0 {
        0
    } else {
        proof {
            lemma_drop_lowest(x);
        }
        1 + ones(x & ((x - 1) as u64))
    }
}

pub proof fn lemma_drop_lowest(x: u64)
    by (bit_vector)
    requires
        x != 0,
    ensures
        x & ((x - 1) as u64) < x,
{
}

proof fn lemma_ones_at_most(x: u64)
    ensures
        ones(x) <= x,
    decreases x,
{
    if x != 0 {
        lemma_drop_lowest(x);
        lemma_ones_at_most(x & ((x - 1) as u64));
    }
}

fn count_ones(x: u64) -> (r: u64)
    ensures
        r == ones(x),
{
    let mut left: u64 = x;
    let mut n: u64 = 0;
    proof {
        lemma_ones_at_most(x);
    }
    while left != 0
        invariant
            n + ones(left) == ones(x),
            ones(x) <= x,
        decreases left,
    {
        proof {
            lemma_drop_lowest(left);
        }
        left = left & (left - 1);
        n = n + 1;
    }
    n
}

/// The number of literals.
pub open spec fn literals(c: BitCube) -> nat {
    ones(c.pos | c.neg)
}

/// The expansions of the ON cubes, once each, in order of first appearance.
pub open spec fn expansions(on: Seq<BitCube>, off: Seq<BitCube>, n: nat) -> Seq<BitCube>
    decreases on.len(),
{
    if on.len() == 0 {
        Seq::empty()
    } else {
        let front = expansions(on.drop_last(), off, n);
        let e = expanded(on.last(), off, 0, n);
        if front.contains(e) {
            front
        } else {
            front.push(e)
        }
    }
}

/// No other candidate contains this one.
pub open spec fn maximal(candidates: Seq<BitCube>, c: BitCube) -> bool {
    forall|k: int| 0 <= k < candidates.len() && candidates[k] != c ==> !(#[trigger] candidates[k]).subsumes(c)
}

/// The candidates that no other candidate contains.
pub open spec fn maximal_cubes(candidates: Seq<BitCube>) -> Seq<BitCube> {
    candidates.filter(|c: BitCube| maximal(candidates, c))
}

/// Candidate `i` alone covers `cube`.
pub open spec fn alone(available: Seq<BitCube>, cube: BitCube, i: int) -> bool {
    &&& 0 <= i < available.len()
    &&& available[i].subsumes(cube)
    &&& forall|j: int| 0 <= j < available.len() && j != i ==> !(#[trigger] available[j]).subsumes(cube)
}

/// The candidate that alone covers the first cube with just one cover.
pub open spec fn essential_index(available: Seq<BitCube>, uncovered: Seq<BitCube>) -> Option<int>
    decreases uncovered.len(),
{
    if uncovered.len() == 0 {
        None
    } else if exists|i: int| alone(available, uncovered[0], i) {
        Some(choose|i: int| alone(available, uncovered[0], i))
    } else {
        essential_index(available, uncovered.skip(1))
    }
}

/// How many of the uncovered cubes a candidate covers.
pub open spec fn reach(c: BitCube, uncovered: Seq<BitCube>) -> nat {
    uncovered.filter(|u: BitCube| c.subsumes(u)).len()
}

/// The first of the first `k` candidates with the widest reach and, among those, the fewest literals.
pub open spec fn widest_index(available: Seq<BitCube>, uncovered: Seq<BitCube>, k: nat) -> int
    decreases k,
{
    if k <= 1 {
        0
    } else {
        let best = widest_index(available, uncovered, (k - 1) as nat);
        let a = available[k - 1];
        let b = available[best];
        if reach(a, uncovered) > reach(b, uncovered) || (reach(a, uncovered) == reach(b, uncovered) && literals(a)
            < literals(b)) {
            k - 1
        } else {
            best
        }
    }
}

pub open spec fn pick_index(available: Seq<BitCube>, uncovered: Seq<BitCube>) -> int {
    match essential_index(available, uncovered) {
        Some(i) => i,
        None => widest_index(available, uncovered, available.len()),
    }
}

/// The candidates taken one after the other until every ON cube is covered.
pub open spec fn picks(available: Seq<BitCube>, uncovered: Seq<BitCube>) -> Seq<BitCube>
    decreases uncovered.len(),
{
    let i = pick_index(available, uncovered);
    let picked = available[i];
    let rest = uncovered.filter(|u: BitCube| !picked.subsumes(u));
    if uncovered.len() == 0 || rest.len() >= uncovered.len() {
        Seq::empty()
    } else {
        seq![picked] + picks(available.remove(i), rest)
    }
}

/// Order of rules: fewest literals first, then by positive, then by negative literals.
pub open spec fn rule_order() -> spec_fn(BitCube, BitCube) -> bool {
    |a: BitCube, b: BitCube|
        literals(a) < literals(b) || (literals(a) == literals(b) && (a.pos < b.pos || (a.pos == b.pos && a.neg
            <= b.neg)))
}

/// The rules for one outcome class.
pub open spec fn minimized(on: Seq<BitCube>, off: Seq<BitCube>, n: nat) -> Seq<BitCube> {
    stable_sorted(picks(maximal_cubes(expansions(on, off, n)), without_repeats(on)), rule_order())
}

/// Every cube of `on` is contained in one of the cubes.
pub open spec fn contains_all(cubes: Seq<BitCube>, on: Seq<BitCube>) -> bool {
    forall|u: BitCube| #[trigger] on.contains(u) ==> exists|c: BitCube| #[trigger] cubes.contains(c) && c.subsumes(u)
}

proof fn lemma_expansions(on: Seq<BitCube>, off: Seq<BitCube>, n: nat)
    requires
        n <= 64,
    ensures
        expansions(on, off, n).no_duplicates(),
        contains_all(expansions(on, off, n), on),
        forall|c: BitCube| #[trigger]
            expansions(on, off, n).contains(c) ==> exists|u: BitCube| #[trigger]
                on.contains(u) && c == expanded(u, off, 0, n),
    decreases on.len(),
{
    if on.len() > 0 {
        let prev = on.drop_last();
        lemma_expansions(prev, off, n);
        let front = expansions(prev, off, n);
        let all = expansions(on, off, n);
        let e = expanded(on.last(), off, 0, n);
        law_expanded(on.last(), off, 0, n);
        assert(all.contains(e)) by {
            if !front.contains(e) {
                assert(all[front.len() as int] == e);
            }
        }
        assert forall|u: BitCube| #[trigger] on.contains(u) implies exists|c: BitCube| #[trigger] all.contains(c)
            && c.subsumes(u) by {
            let i = choose|i: int| 0 <= i < on.len() && on[i] == u;
            if i < prev.len() {
                assert(prev[i] == u);
                assert(prev.contains(u));
                let c = choose|c: BitCube| #[trigger] front.contains(c) && c.subsumes(u);
                let k = choose|k: int| 0 <= k < front.len() && front[k] == c;
                assert(all[k] == c);
                assert(all.contains(c));
            } else {
                assert(all.contains(e) && e.subsumes(u));
            }
        }
        assert forall|c: BitCube| #[trigger] all.contains(c) implies exists|u: BitCube| #[trigger] on.contains(u) && c
            == expanded(u, off, 0, n) by {
            let k = choose|k: int| 0 <= k < all.len() && all[k] == c;
            if k < front.len() {
                assert(front[k] == c);
                assert(front.contains(c));
                let u = choose|u: BitCube| #[trigger] prev.contains(u) && c == expanded(u, off, 0, n);
                let i = choose|i: int| 0 <= i < prev.len() && prev[i] == u;
                assert(on[i] == u);
                assert(on.contains(u));
            } else {
                assert(on[on.len() - 1] == on.last());
                assert(on.contains(on.last()));
            }
        }
    }
}

/// Above every candidate stands a maximal one: a candidate with the fewest
/// candidates above it.
proof fn lemma_maximal_above(candidates: Seq<BitCube>, c: BitCube) -> (m: BitCube)
    requires
        candidates.contains(c),
    ensures
        candidates.contains(m),
        maximal(candidates, m),
        m.subsumes(c),
    decreases candidates.filter(|d: BitCube| d.subsumes(c)).len(),
{
    lemma_subsumes_chain(c, c, c);
    if maximal(candidates, c) {
        c
    } else {
        let k = choose|k: int| 0 <= k < candidates.len() && candidates[k] != c && (#[trigger] candidates[k]).subsumes(c);
        let d = candidates[k];
        assert(candidates.contains(d));
        let above_c = |x: BitCube| x.subsumes(c);
        let above_d = |x: BitCube| x.subsumes(d);
        let ac = candidates.filter(above_c);
        lemma_filter_contains(candidates, above_c);
        lemma_filter_within(candidates, above_d, above_c, d, c);
        assert(!above_d(c)) by {
            lemma_subsumes_chain(c, d, c);
        }
        assert(ac.contains(c));
        lemma_filter_shrinks(ac, above_d, c);
        let m = lemma_maximal_above(candidates, d);
        lemma_subsumes_chain(m, d, c);
        m
    }
}

/// What is above `d` is what is above both, when `d` is above `c`.
proof fn lemma_filter_within(
    s: Seq<BitCube>,
    above_d: spec_fn(BitCube) -> bool,
    above_c: spec_fn(BitCube) -> bool,
    d: BitCube,
    c: BitCube,
)
    requires
        d.subsumes(c),
        above_c == (|x: BitCube| x.subsumes(c)),
        above_d == (|x: BitCube| x.subsumes(d)),
    ensures
        s.filter(above_d) == s.filter(above_c).filter(above_d),
    decreases s.len(),
{
    reveal(Seq::filter);
    if s.len() > 0 {
        lemma_filter_within(s.drop_last(), above_d, above_c, d, c);
        let x = s.last();
        if x.subsumes(d) {
            lemma_subsumes_chain(x, d, c);
        }
        let f = s.drop_last().filter(above_c);
        if above_c(x) {
            assert(f.push(x).drop_last() =~= f);
        }
    }
}

proof fn lemma_essential_index(available: Seq<BitCube>, uncovered: Seq<BitCube>)
    ensures
        essential_index(available, uncovered) matches Some(i) ==> {
            &&& 0 <= i < available.len()
            &&& exists|u: BitCube| #[trigger] uncovered.contains(u) && available[i].subsumes(u)
        },
    decreases uncovered.len(),
{
    if uncovered.len() > 0 {
        if exists|i: int| alone(available, uncovered[0], i) {
            assert(uncovered.contains(uncovered[0]));
        } else {
            lemma_essential_index(available, uncovered.skip(1));
            if let Some(i) = essential_index(available, uncovered.skip(1)) {
                let u = choose|u: BitCube| #[trigger] uncovered.skip(1).contains(u) && available[i].subsumes(u);
                let k = choose|k: int| 0 <= k < uncovered.skip(1).len() && uncovered.skip(1)[k] == u;
                assert(uncovered[k + 1] == u);
                assert(uncovered.contains(u));
            }
        }
    }
}

proof fn lemma_widest(available: Seq<BitCube>, uncovered: Seq<BitCube>, k: nat)
    requires
        0 < k <= available.len(),
    ensures
        0 <= widest_index(available, uncovered, k) < k,
        forall|j: int|
            0 <= j < k ==> reach(#[trigger] available[j], uncovered) <= reach(
                available[widest_index(available, uncovered, k)],
                uncovered,
            ),
    decreases k,
{
    if k > 1 {
        lemma_widest(available, uncovered, (k - 1) as nat);
    }
}

/// The candidate taken next is available and covers something.
proof fn lemma_pick_index(available: Seq<BitCube>, uncovered: Seq<BitCube>)
    requires
        uncovered.len() > 0,
        contains_all(available, uncovered),
    ensures
        0 <= pick_index(available, uncovered) < available.len(),
        exists|u: BitCube| #[trigger]
            uncovered.contains(u) && available[pick_index(available, uncovered)].subsumes(u),
{
    lemma_essential_index(available, uncovered);
    if essential_index(available, uncovered) is None {
        let u = uncovered[0];
        assert(uncovered.contains(u));
        let c = choose|c: BitCube| #[trigger] available.contains(c) && c.subsumes(u);
        let j = choose|j: int| 0 <= j < available.len() && available[j] == c;
        lemma_widest(available, uncovered, available.len());
        lemma_filter_nonempty(uncovered, |u: BitCube| c.subsumes(u), u);
        assert(reach(available[j], uncovered) > 0);
        let best = available[pick_index(available, uncovered)];
        let covered = |u: BitCube| best.subsumes(u);
        lemma_filter_contains(uncovered, covered);
        let hit = uncovered.filter(covered)[0];
        assert(uncovered.filter(covered).contains(hit));
        assert(uncovered.contains(hit) && best.subsumes(hit));
    }
}

proof fn lemma_remove_contains(s: Seq<BitCube>, i: int)
    requires
        0 <= i < s.len(),
    ensures
        forall|c: BitCube| #[trigger] s.remove(i).contains(c) ==> s.contains(c),
        forall|c: BitCube| s.contains(c) && c != s[i] ==> #[trigger] s.remove(i).contains(c),
{
    let r = s.remove(i);
    assert forall|c: BitCube| #[trigger] r.contains(c) implies s.contains(c) by {
        let k = choose|k: int| 0 <= k < r.len() && r[k] == c;
        assert(s[if k < i { k } else { k + 1 }] == c);
    }
    assert forall|c: BitCube| s.contains(c) && c != s[i] implies #[trigger] r.contains(c) by {
        let k = choose|k: int| 0 <= k < s.len() && s[k] == c;
        assert(r[if k < i { k } else { k - 1 }] == c);
    }
}

/// After a pick, the remaining candidates still cover what is left.
proof fn lemma_after_pick(available: Seq<BitCube>, uncovered: Seq<BitCube>, i: int)
    requires
        0 <= i < available.len(),
        contains_all(available, uncovered),
    ensures
        contains_all(available.remove(i), uncovered.filter(|u: BitCube| !available[i].subsumes(u))),
{
    let picked = available[i];
    let keep = |u: BitCube| !picked.subsumes(u);
    lemma_filter_contains(uncovered, keep);
    lemma_remove_contains(available, i);
    assert forall|u: BitCube| #[trigger] uncovered.filter(keep).contains(u) implies exists|c: BitCube| #[trigger]
        available.remove(i).contains(c) && c.subsumes(u) by {
        assert(uncovered.contains(u));
        let c = choose|c: BitCube| #[trigger] available.contains(c) && c.subsumes(u);
        assert(available.remove(i).contains(c));
    }
}

proof fn lemma_picks(available: Seq<BitCube>, uncovered: Seq<BitCube>)
    requires
        contains_all(available, uncovered),
    ensures
        contains_all(picks(available, uncovered), uncovered),
        forall|c: BitCube| #[trigger] picks(available, uncovered).contains(c) ==> available.contains(c),
    decreases uncovered.len(),
{
    if uncovered.len() > 0 {
        let i = pick_index(available, uncovered);
        lemma_pick_index(available, uncovered);
        let picked = available[i];
        let keep = |u: BitCube| !picked.subsumes(u);
        let rest = uncovered.filter(keep);
        let hit = choose|u: BitCube| #[trigger] uncovered.contains(u) && picked.subsumes(u);
        lemma_filter_shrinks(uncovered, keep, hit);
        lemma_filter_contains(uncovered, keep);
        lemma_after_pick(available, uncovered, i);
        lemma_remove_contains(available, i);
        lemma_picks(available.remove(i), rest);
        let tail = picks(available.remove(i), rest);
        let all = picks(available, uncovered);
        assert(all == seq![picked] + tail);
        assert(all[0] == picked);
        assert forall|u: BitCube| #[trigger] uncovered.contains(u) implies exists|c: BitCube| #[trigger]
            all.contains(c) && c.subsumes(u) by {
            if picked.subsumes(u) {
                assert(all.contains(picked));
            } else {
                assert(rest.contains(u));
                let c = choose|c: BitCube| #[trigger] tail.contains(c) && c.subsumes(u);
                let k = choose|k: int| 0 <= k < tail.len() && tail[k] == c;
                assert(all[k + 1] == c);
                assert(all.contains(c));
            }
        }
        assert forall|c: BitCube| #[trigger] all.contains(c) implies available.contains(c) by {
            let k = choose|k: int| 0 <= k < all.len() && all[k] == c;
            if k > 0 {
                assert(tail[k - 1] == c);
                assert(tail.contains(c));
                assert(available.remove(i).contains(c));
            } else {
                assert(available[i] == c);
            }
        }
    }
}

/// The maximal candidates still contain every ON cube.
proof fn lemma_candidates(on: Seq<BitCube>, off: Seq<BitCube>, n: nat)
    requires
        n <= 64,
    ensures
        contains_all(maximal_cubes(expansions(on, off, n)), without_repeats(on)),
        forall|c: BitCube| #[trigger]
            maximal_cubes(expansions(on, off, n)).contains(c) ==> expansions(on, off, n).contains(c),
{
    let all = expansions(on, off, n);
    let p = |c: BitCube| maximal(all, c);
    lemma_expansions(on, off, n);
    lemma_filter_contains(all, p);
    lemma_without_repeats(on);
    assert forall|u: BitCube| #[trigger] without_repeats(on).contains(u) implies exists|c: BitCube| #[trigger]
        maximal_cubes(all).contains(c) && c.subsumes(u) by {
        assert(on.contains(u));
        let c = choose|c: BitCube| #[trigger] all.contains(c) && c.subsumes(u);
        let m = lemma_maximal_above(all, c);
        lemma_subsumes_chain(m, c, u);
        assert(maximal_cubes(all).contains(m));
    }
}

/// Minimization covers every observed row.
pub proof fn law_minimized_covers(on: Seq<BitCube>, off: Seq<BitCube>, n: nat)
    requires
        n <= 64,
    ensures
        contains_all(minimized(on, off, n), on),
{
    let available = maximal_cubes(expansions(on, off, n));
    let uncovered = without_repeats(on);
    let taken = picks(available, uncovered);
    let r = minimized(on, off, n);
    lemma_candidates(on, off, n);
    lemma_without_repeats(on);
    lemma_picks(available, uncovered);
    lemma_stable_sorted_contains(taken, rule_order());
    assert forall|u: BitCube| #[trigger] on.contains(u) implies exists|c: BitCube| #[trigger] r.contains(c)
        && c.subsumes(u) by {
        assert(uncovered.contains(u));
        let c = choose|c: BitCube| #[trigger] taken.contains(c) && c.subsumes(u);
        assert(r.contains(c));
    }
}

/// A rule conflicts with no row of another outcome unless an observed row
/// itself does, and none of its literals could be freed without touching one.
pub proof fn law_minimized_rule(on: Seq<BitCube>, off: Seq<BitCube>, n: nat, c: BitCube)
    requires
        n <= 64,
        minimized(on, off, n).contains(c),
    ensures
        (forall|u: BitCube| #[trigger] on.contains(u) ==> !touches(u, off)) ==> !touches(c, off),
        forall|j: u64| j < n && #[trigger] has_literal(c, j) ==> touches(without(c, j), off),
{
    let u = lemma_rule_origin(on, off, n, c);
    law_expanded(u, off, 0, n);
}

/// Every rule is the expansion of an ON cube.
proof fn lemma_rule_origin(on: Seq<BitCube>, off: Seq<BitCube>, n: nat, c: BitCube) -> (u: BitCube)
    requires
        n <= 64,
        minimized(on, off, n).contains(c),
    ensures
        on.contains(u),
        c == expanded(u, off, 0, n),
{
    let all = expansions(on, off, n);
    let available = maximal_cubes(all);
    let taken = picks(available, without_repeats(on));
    assert(taken.contains(c)) by {
        lemma_stable_sorted_contains(taken, rule_order());
    }
    assert(available.contains(c)) by {
        lemma_candidates(on, off, n);
        lemma_picks(available, without_repeats(on));
    }
    assert(all.contains(c)) by {
        lemma_filter_contains(all, |c: BitCube| maximal(all, c));
    }
    assert(exists|u: BitCube| #[trigger] on.contains(u) && c == expanded(u, off, 0, n)) by {
        lemma_expansions(on, off, n);
    }
    choose|u: BitCube| #[trigger] on.contains(u) && c == expanded(u, off, 0, n)
}

fn find_cube(cubes: &Vec<BitCube>, c: BitCube) -> (r: bool)
    ensures
        r == cubes@.contains(c),
{
    let mut i: usize = 0;
    while i < cubes.len()
        invariant
            i <= cubes.len(),
            forall|k: int| 0 <= k < i ==> cubes@[k] != c,
        decreases cubes.len() - i,
    {
        if cubes[i] == c {
            assert(cubes@[i as int] == c);
            return true;
        }
        i = i + 1;
    }
    false
}

fn expand_all(on: &[BitCube], off: &[BitCube], n: usize) -> (r: Vec<BitCube>)
    requires
        n <= 64,
    ensures
        r@ == expansions(on@, off@, n as nat),
{
    let mut r: Vec<BitCube> = Vec::new();
    let mut i: usize = 0;
    while i < on.len()
        invariant
            i <= on.len(),
            n <= 64,
            r@ == expansions(on@.take(i as int), off@, n as nat),
        decreases on.len() - i,
    {
        let e = expand(on[i], off, n);
        assert(on@.take(i + 1).drop_last() =~= on@.take(i as int));
        if !find_cube(&r, e) {
            r.push(e);
        }
        i = i + 1;
    }
    assert(on@.take(i as int) =~= on@);
    r
}

fn keep_maximal(candidates: &Vec<BitCube>) -> (r: Vec<BitCube>)
    ensures
        r@ == maximal_cubes(candidates@),
{
    let ghost p = |c: BitCube| maximal(candidates@, c);
    let mut r: Vec<BitCube> = Vec::new();
    let mut i: usize = 0;
    proof {
        lemma_filter_ends(candidates@, p);
    }
    while i < candidates.len()
        invariant
            i <= candidates.len(),
            p == |c: BitCube| maximal(candidates@, c),
            r@ == candidates@.take(i as int).filter(p),
        decreases candidates.len() - i,
    {
        let c = candidates[i];
        let mut top = true;
        let mut k: usize = 0;
        while k < candidates.len()
            invariant
                k <= candidates.len(),
                top <==> forall|j: int|
                    0 <= j < k && candidates@[j] != c ==> !(#[trigger] candidates@[j]).subsumes(c),
            decreases candidates.len() - k,
        {
            if candidates[k] != c && candidates[k].contains(c) {
                top = false;
            }
            k = k + 1;
        }
        proof {
            lemma_filter_step(candidates@, p, i as int);
        }
        if top {
            r.push(c);
        }
        i = i + 1;
    }
    proof {
        lemma_filter_ends(candidates@, p);
    }
    r
}

fn index_alone(available: &Vec<BitCube>, cube: BitCube) -> (r: Option<usize>)
    ensures
        match r {
            Some(i) => alone(available@, cube, i as int),
            None => forall|i: int| !#[trigger] alone(available@, cube, i),
        },
{
    let mut found: Option<usize> = None;
    let mut i: usize = 0;
    while i < available.len()
        invariant
            i <= available.len(),
            match found {
                Some(k) => {
                    &&& k < i
                    &&& available@[k as int].subsumes(cube)
                    &&& forall|j: int| 0 <= j < i && j != k ==> !(#[trigger] available@[j]).subsumes(cube)
                },
                None => forall|j: int| 0 <= j < i ==> !(#[trigger] available@[j]).subsumes(cube),
            },
        decreases available.len() - i,
    {
        if available[i].contains(cube) {
            match found {
                Some(k) => {
                    proof {
                        assert forall|x: int| !#[trigger] alone(available@, cube, x) by {
                            if alone(available@, cube, x) {
                                assert(available@[k as int].subsumes(cube));
                                assert(available@[i as int].subsumes(cube));
                            }
                        }
                    }
                    return None;
                },
                None => {
                    found = Some(i);
                },
            }
        }
        i = i + 1;
    }
    found
}

fn find_pick(available: &Vec<BitCube>, uncovered: &Vec<BitCube>) -> (r: usize)
    requires
        available.len() > 0,
    ensures
        r == pick_index(available@, uncovered@),
{
    let mut i: usize = 0;
    assert(uncovered@.skip(0) =~= uncovered@);
    while i < uncovered.len()
        invariant
            i <= uncovered.len(),
            essential_index(available@, uncovered@) == essential_index(available@, uncovered@.skip(i as int)),
        decreases uncovered.len() - i,
    {
        match index_alone(available, uncovered[i]) {
            Some(k) => {
                assert(alone(available@, uncovered@.skip(i as int)[0], k as int));
                return k;
            },
            None => {},
        }
        assert(uncovered@.skip(i as int).skip(1) =~= uncovered@.skip(i + 1));
        i = i + 1;
    }
    find_widest(available, uncovered)
}

fn count_reach(c: BitCube, uncovered: &Vec<BitCube>) -> (r: usize)
    ensures
        r == reach(c, uncovered@),
{
    let ghost p = |u: BitCube| c.subsumes(u);
    let mut n: usize = 0;
    let mut i: usize = 0;
    proof {
        lemma_filter_ends(uncovered@, p);
    }
    while i < uncovered.len()
        invariant
            i <= uncovered.len(),
            n <= i,
            p == |u: BitCube| c.subsumes(u),
            n == uncovered@.take(i as int).filter(p).len(),
        decreases uncovered.len() - i,
    {
        proof {
            lemma_filter_step(uncovered@, p, i as int);
        }
        if c.contains(uncovered[i]) {
            n = n + 1;
        }
        i = i + 1;
    }
    proof {
        lemma_filter_ends(uncovered@, p);
    }
    n
}

fn find_widest(available: &Vec<BitCube>, uncovered: &Vec<BitCube>) -> (r: usize)
    requires
        available.len() > 0,
    ensures
        r == widest_index(available@, uncovered@, available@.len()),
        r < available.len(),
{
    let mut best: usize = 0;
    let mut best_reach: usize = count_reach(available[0], uncovered);
    let mut k: usize = 1;
    while k < available.len()
        invariant
            1 <= k <= available.len(),
            best < k,
            best == widest_index(available@, uncovered@, k as nat),
            best_reach == reach(available@[best as int], uncovered@),
        decreases available.len() - k,
    {
        let c = available[k];
        let b = available[best];
        let n: usize = count_reach(c, uncovered);
        if n > best_reach || (n == best_reach && count_ones(c.pos | c.neg) < count_ones(b.pos | b.neg)) {
            best = k;
            best_reach = n;
        }
        k = k + 1;
    }
    best
}

fn not_contained(uncovered: &Vec<BitCube>, picked: BitCube) -> (r: Vec<BitCube>)
    ensures
        r@ == uncovered@.filter(|u: BitCube| !picked.subsumes(u)),
{
    let ghost p = |u: BitCube| !picked.subsumes(u);
    let mut r: Vec<BitCube> = Vec::new();
    let mut i: usize = 0;
    proof {
        lemma_filter_ends(uncovered@, p);
    }
    while i < uncovered.len()
        invariant
            i <= uncovered.len(),
            p == |u: BitCube| !picked.subsumes(u),
            r@ == uncovered@.take(i as int).filter(p),
        decreases uncovered.len() - i,
    {
        proof {
            lemma_filter_step(uncovered@, p, i as int);
        }
        if !picked.contains(uncovered[i]) {
            r.push(uncovered[i]);
        }
        i = i + 1;
    }
    proof {
        lemma_filter_ends(uncovered@, p);
    }
    r
}

fn drop_repeats(on: &[BitCube]) -> (r: Vec<BitCube>)
    ensures
        r@ == without_repeats(on@),
{
    let mut r: Vec<BitCube> = Vec::new();
    let mut i: usize = 0;
    while i < on.len()
        invariant
            i <= on.len(),
            r@ == without_repeats(on@.take(i as int)),
        decreases on.len() - i,
    {
        assert(on@.take(i + 1).drop_last() =~= on@.take(i as int));
        if i == 0 || on[i] != on[i - 1] {
            r.push(on[i]);
            assert(r@ =~= without_repeats(on@.take(i + 1)));
        }
        i = i + 1;
    }
    assert(on@.take(i as int) =~= on@);
    r
}

/// Minimize one outcome class: expand every ON cube against the OFF list,
/// then select an essential-first greedy cover of the ON cubes.
pub fn minimize(on: &[BitCube], off: &[BitCube], n: usize) -> (r: Vec<BitCube>)
    requires
        n <= 64,
    ensures
        r@ == minimized(on@, off@, n as nat),
{
    let candidates = expand_all(on, off, n);
    let mut available = keep_maximal(&candidates);
    let mut uncovered = drop_repeats(on);
    let mut chosen: Vec<BitCube> = Vec::new();
    let ghost all = picks(available@, uncovered@);
    proof {
        lemma_candidates(on@, off@, n as nat);
    }
    assert(chosen@ + picks(available@, uncovered@) =~= all);
    while uncovered.len() > 0
        invariant
            chosen@ + picks(available@, uncovered@) == all,
            contains_all(available@, uncovered@),
        decreases uncovered.len(),
    {
        let ghost available0 = available@;
        let ghost uncovered0 = uncovered@;
        let ghost chosen0 = chosen@;
        proof {
            lemma_pick_index(available@, uncovered@);
        }
        let i: usize = find_pick(&available, &uncovered);
        let picked = available.remove(i);
        uncovered = not_contained(&uncovered, picked);
        chosen.push(picked);
        proof {
            let keep = |u: BitCube| !picked.subsumes(u);
            let hit = choose|u: BitCube| #[trigger] uncovered0.contains(u) && picked.subsumes(u);
            lemma_filter_shrinks(uncovered0, keep, hit);
            lemma_after_pick(available0, uncovered0, i as int);
            assert(chosen0 + picks(available0, uncovered0) =~= chosen@ + picks(available@, uncovered@));
        }
    }
    assert(chosen@ + picks(available@, uncovered@) =~= chosen@);
    let compare = |a: &BitCube, b: &BitCube| -> (t: bool)
        ensures
            t == rule_order()(*a, *b),
        {
            let x: u64 = count_ones(a.pos | a.neg);
            let y: u64 = count_ones(b.pos | b.neg);
            x < y || (x == y && (a.pos < b.pos || (a.pos == b.pos && a.neg <= b.neg)))
        };
    sort_stable(chosen, &compare, Ghost(rule_order()))
}

} // verus!
