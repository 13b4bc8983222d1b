//! Quine-McCluskey logic minimization over bitmask minterms.

use std::collections::HashSet;

use vstd::prelude::*;
use vstd::std_specs::iter::IteratorSpec;

use crate::order::{lemma_stable_sorted, lemma_stable_sorted_contains, sort_stable, stable_sorted};
use crate::seqs::{
    lemma_filter_contains, lemma_filter_ends, lemma_filter_nonempty, lemma_filter_shrinks, lemma_filter_step,
    lemma_without_repeats, without_repeats,
};

verus! {

broadcast use vstd::std_specs::hash::group_hash_axioms;

/// A product term over boolean variables, encoded as bitmasks.
/// Bit `i` of `mask` set means variable `i` is specified; `bits` holds the
/// specified values (bits outside `mask` are always zero).
#[derive(Debug, Clone, Copy, PartialEq, Eq, Hash, PartialOrd, Ord, Structural)]
pub struct Cube {
    pub bits: u32,
    pub mask: u32,
}

impl Cube {
    /// The minterm agrees with every specified variable.
    pub open spec fn matches(self, minterm: u32) -> bool {
        minterm & self.mask == self.bits
    }

    /// No value outside the specified variables, all of which lie in `full`.
    pub open spec fn wf(self, full: u32) -> bool {
        self.mask & full == self.mask && self.bits & self.mask == self.bits
    }

    /// Every literal of `self` is a literal of `other`.
    pub open spec fn generalizes(self, other: Cube) -> bool {
        self.mask & other.mask == self.mask && other.bits & self.mask == self.bits
    }

    pub fn covers(&self, minterm: u32) -> (r: bool)
        ensures
            r == self.matches(minterm),
    {
        minterm & self.mask == self.bits
    }
}

/// The minterm that has all of the first `n` variables true.
pub open spec fn full_mask(n: nat) -> u32 {
    if n == 0 {
        0
    } else {
        ((1u32 << n) - 1) as u32
    }
}

/// The minterm only speaks of the variables in `full`.
pub open spec fn in_space(minterm: u32, full: u32) -> bool {
    minterm & full == minterm
}

/// A cube over `full` that covers nothing outside the care set.
pub open spec fn implicant(cube: Cube, care: Set<u32>, full: u32) -> bool {
    &&& cube.wf(full)
    &&& forall|m: u32| #[trigger] cube.matches(m) && in_space(m, full) ==> care.contains(m)
}

/// An implicant that stops being one as soon as any of its literals is dropped.
pub open spec fn prime(cube: Cube, care: Set<u32>, full: u32) -> bool {
    &&& implicant(cube, care, full)
    &&& forall|d: Cube| #[trigger] implicant(d, care, full) && d.generalizes(cube) ==> d == cube
}

/// Order of cubes: by bits, then by mask.
pub open spec fn cube_le(a: Cube, b: Cube) -> bool {
    a.bits < b.bits || (a.bits == b.bits && a.mask <= b.mask)
}

pub open spec fn cube_order() -> spec_fn(Cube, Cube) -> bool {
    |a: Cube, b: Cube| cube_le(a, b)
}

/// Strictly ascending in the order of cubes.
pub open spec fn cubes_ascend(cubes: Seq<Cube>) -> bool {
    forall|i: int, j: int|
        #![trigger cubes[i], cubes[j]]
        0 <= i < j < cubes.len() ==> cube_le(cubes[i], cubes[j]) && cubes[i] != cubes[j]
}

spec fn single(b: u32) -> bool {
    b != 0 && b & ((b - 1) as u32) == 0
}

spec fn freed(c: Cube, b: u32) -> Cube {
    Cube { bits: c.bits & !b, mask: c.mask & !b }
}

spec fn partner(c: Cube, b: u32) -> Cube {
    Cube { bits: c.bits ^ b, mask: c.mask }
}

/// The number of bits set in `x`.
pub open spec fn weight(x: u32) -> nat
    decreases x,
{
    if x == 0 {
        0
    } else {
        proof {
            lemma_clear_lowest(x);
        }
        1 + weight(x & ((x - 1) as u32))
    }
}

spec fn key(c: Cube) -> u64 {
    (c.bits as u64 * 0x1_0000_0000 + c.mask as u64) as u64
}

pub proof fn lemma_clear_lowest(x: u32)
    by (bit_vector)
    requires
        x != 0,
    ensures
        x & ((x - 1) as u32) < x,
{
}

proof fn lemma_lowest(x: u32)
    by (bit_vector)
    requires
        x != 0,
    ensures
        single(x ^ (x & ((x - 1) as u32))),
        (x ^ (x & ((x - 1) as u32))) & x == x ^ (x & ((x - 1) as u32)),
        x & ((x - 1) as u32) & x == x & ((x - 1) as u32),
{
}

proof fn lemma_clear_other(x: u32, b: u32)
    by (bit_vector)
    requires
        single(b),
        b & x == b,
    ensures
        x != 0,
        b == x ^ (x & ((x - 1) as u32)) ==> x & !b == x & ((x - 1) as u32),
        b != x ^ (x & ((x - 1) as u32)) ==> {
            &&& b & (x & ((x - 1) as u32)) == b
            &&& x & !b != 0
            &&& (x & !b) & (((x & !b) - 1) as u32) == (x & ((x - 1) as u32)) & !b
        },
        x & !b < x,
{
}

proof fn lemma_weight_clear(x: u32, b: u32)
    requires
        single(b),
        b & x == b,
    ensures
        weight(x) == weight(x & !b) + 1,
    decreases x,
{
    lemma_clear_other(x, b);
    lemma_clear_lowest(x);
    if b != x ^ (x & ((x - 1) as u32)) {
        lemma_weight_clear(x & ((x - 1) as u32), b);
    }
}

proof fn lemma_missing_bit(x: u32, y: u32)
    by (bit_vector)
    requires
        x & y == x,
        x != y,
    ensures
        y & !x != 0,
        ((y & !x) ^ ((y & !x) & (((y & !x) - 1) as u32))) & y == (y & !x) ^ ((y & !x) & (((y & !x) - 1) as u32)),
        ((y & !x) ^ ((y & !x) & (((y & !x) - 1) as u32))) & x == 0,
        x & (y & !((y & !x) ^ ((y & !x) & (((y & !x) - 1) as u32)))) == x,
{
}

/// A bit of `y` that the smaller mask `x` lacks.
spec fn missing_bit(x: u32, y: u32) -> u32 {
    (y & !x) ^ ((y & !x) & (((y & !x) - 1) as u32))
}

proof fn lemma_weight_subset(x: u32, y: u32)
    requires
        x & y == x,
        x != y,
    ensures
        weight(x) < weight(y),
    decreases y,
{
    let b = missing_bit(x, y);
    lemma_missing_bit(x, y);
    lemma_lowest(y & !x);
    lemma_weight_clear(y, b);
    lemma_clear_other(y, b);
    if x != y & !b {
        lemma_weight_subset(x, y & !b);
    }
}

proof fn lemma_freed_bits(bits: u32, mask: u32, b: u32, m: u32)
    by (bit_vector)
    requires
        single(b),
        b & mask == b,
        bits & mask == bits,
    ensures
        m & (mask & !b) == bits & !b <==> (m & mask == bits || m & mask == bits ^ b),
{
}

proof fn lemma_freed_wf(bits: u32, mask: u32, b: u32, full: u32)
    by (bit_vector)
    requires
        single(b),
        b & mask == b,
        bits & mask == bits,
        mask & full == mask,
    ensures
        (mask & !b) & full == mask & !b,
        (bits & !b) & (mask & !b) == bits & !b,
        (bits ^ b) & mask == bits ^ b,
        bits ^ b != bits,
        (mask & !b) & mask == mask & !b,
        bits & (mask & !b) == bits & !b,
        mask & !b != mask,
{
}

proof fn lemma_added_bit(bits: u32, mask: u32, b: u32, full: u32)
    by (bit_vector)
    requires
        single(b),
        b & full == b,
        b & mask == 0,
        bits & mask == bits,
        mask & full == mask,
    ensures
        b & (mask | b) == b,
        (mask | b) & full == mask | b,
        bits & (mask | b) == bits,
        (mask | b) & !b == mask,
        bits & !b == bits,
{
}

/// Dropping one literal keeps an implicant exactly when the cube with that
/// literal negated is an implicant too.
proof fn lemma_freed_implicant(c: Cube, b: u32, care: Set<u32>, full: u32)
    requires
        c.wf(full),
        single(b),
        b & c.mask == b,
    ensures
        implicant(freed(c, b), care, full) <==> implicant(c, care, full) && implicant(partner(c, b), care, full),
{
    let f = freed(c, b);
    let p = partner(c, b);
    lemma_freed_wf(c.bits, c.mask, b, full);
    assert forall|m: u32| f.matches(m) <==> c.matches(m) || p.matches(m) by {
        lemma_freed_bits(c.bits, c.mask, b, m);
    }
    if implicant(f, care, full) {
        assert forall|m: u32| #[trigger] c.matches(m) && in_space(m, full) implies care.contains(m) by {
            assert(f.matches(m));
        }
        assert forall|m: u32| #[trigger] p.matches(m) && in_space(m, full) implies care.contains(m) by {
            assert(f.matches(m));
        }
    }
}

proof fn lemma_generalizes_matches(db: u32, dm: u32, cb: u32, cm: u32, b: u32, m: u32)
    by (bit_vector)
    requires
        single(b),
        b & cm == b,
        b & dm == 0,
        dm & cm == dm,
        cb & dm == db,
        m & (cm & !b) == cb & !b,
    ensures
        m & dm == db,
{
}

/// An implicant is prime exactly when no cube that differs in one literal is an implicant.
proof fn lemma_prime(c: Cube, care: Set<u32>, full: u32)
    requires
        implicant(c, care, full),
    ensures
        prime(c, care, full) <==> forall|b: u32|
            #![trigger partner(c, b)]
            single(b) && b & c.mask == b ==> !implicant(partner(c, b), care, full),
{
    if prime(c, care, full) {
        assert forall|b: u32|
            #![trigger partner(c, b)]
            single(b) && b & c.mask == b implies !implicant(partner(c, b), care, full) by {
            lemma_freed_implicant(c, b, care, full);
            lemma_freed_wf(c.bits, c.mask, b, full);
            if implicant(partner(c, b), care, full) {
                assert(freed(c, b).generalizes(c));
            }
        }
    } else {
        let d = choose|d: Cube| #[trigger] implicant(d, care, full) && d.generalizes(c) && d != c;
        if d.mask == c.mask {
            assert(c.bits & c.mask == c.bits);
            assert(false);
        }
        let b = missing_bit(d.mask, c.mask);
        lemma_missing_bit(d.mask, c.mask);
        lemma_lowest(c.mask & !d.mask);
        let f = freed(c, b);
        lemma_freed_wf(c.bits, c.mask, b, full);
        assert forall|m: u32| #[trigger] f.matches(m) && in_space(m, full) implies care.contains(m) by {
            lemma_generalizes_matches(d.bits, d.mask, c.bits, c.mask, b, m);
            assert(d.matches(m));
        }
        lemma_freed_implicant(c, b, care, full);
        assert(implicant(partner(c, b), care, full));
    }
}

/// `d` comes from `c` by dropping a literal whose negation is also in `level`.
spec fn merges_to(c: Cube, level: Set<Cube>, d: Cube, b: u32) -> bool {
    single(b) && b & c.mask == b && level.contains(partner(c, b)) && d == freed(c, b)
}

/// The implicants that specify `w` variables.
spec fn level_set(care: Set<u32>, full: u32, w: int) -> Set<Cube> {
    Set::new(|c: Cube| implicant(c, care, full) && weight(c.mask) == w)
}

/// The list holds exactly the cubes of the set, once each, and `keys` holds their keys.
spec fn holds(list: Seq<Cube>, keys: Set<u64>, cubes: Set<Cube>) -> bool {
    &&& list.no_duplicates()
    &&& forall|c: Cube| #[trigger] list.contains(c) <==> cubes.contains(c)
    &&& forall|c: Cube| #[trigger] keys.contains(key(c)) <==> cubes.contains(c)
}

fn cube_key(c: Cube) -> (k: u64)
    ensures
        k == key(c),
{
    c.bits as u64 * 0x1_0000_0000 + c.mask as u64
}

/// Adds to `next` every cube that `cube` merges to within the level; says
/// whether there was one.
fn merge_cube(
    cube: Cube,
    present: &HashSet<u64>,
    next: &mut Vec<Cube>,
    next_keys: &mut HashSet<u64>,
    Ghost(level): Ghost<Set<Cube>>,
    Ghost(found): Ghost<Set<Cube>>,
) -> (combined: bool)
    requires
        forall|c: Cube| #[trigger] present@.contains(key(c)) <==> level.contains(c),
        holds(old(next)@, old(next_keys)@, found),
    ensures
        combined <==> exists|b: u32| #[trigger] merges_to(cube, level, freed(cube, b), b),
        holds(
            final(next)@,
            final(next_keys)@,
            Set::new(|d: Cube| found.contains(d) || exists|b: u32| #[trigger] merges_to(cube, level, d, b)),
        ),
{
    let mut combined = false;
    let mut remaining: u32 = cube.mask;
    let ghost mut now = found;
    assert(remaining & remaining == remaining) by (bit_vector);
    while remaining != 0
        invariant
            remaining & cube.mask == remaining,
            forall|c: Cube| #[trigger] present@.contains(key(c)) <==> level.contains(c),
            holds(next@, next_keys@, now),
            combined <==> exists|b: u32|
                #[trigger] merges_to(cube, level, freed(cube, b), b) && b & remaining != b,
            forall|d: Cube| #[trigger]
                now.contains(d) <==> found.contains(d) || exists|b: u32|
                    #[trigger] merges_to(cube, level, d, b) && b & remaining != b,
        decreases remaining,
    {
        let rest: u32 = remaining & (remaining - 1);
        let bit: u32 = remaining ^ rest;
        proof {
            lemma_lowest(remaining);
            lemma_clear_lowest(remaining);
            lemma_step_bits(remaining, cube.mask);
        }
        let ghost old_now = now;
        let other = Cube { bits: cube.bits ^ bit, mask: cube.mask };
        assert(other == partner(cube, bit));
        let merged = Cube { bits: cube.bits & !bit, mask: cube.mask & !bit };
        assert(merged == freed(cube, bit));
        if present.contains(&cube_key(other)) {
            assert(merges_to(cube, level, merged, bit));
            combined = true;
            let ghost next0 = next@;
            let ghost keys0 = next_keys@;
            if next_keys.insert(cube_key(merged)) {
                next.push(merged);
            }
            proof {
                assert(keys0.contains(key(merged)) <==> next0.contains(merged));
                now = now.insert(merged);
                lemma_key_injective();
                lemma_push_contains(next0, merged);
                assert forall|c: Cube| #[trigger] next_keys@.contains(key(c)) <==> now.contains(c) by {
                    assert(keys0.contains(key(c)) <==> old_now.contains(c));
                }
                assert forall|c: Cube| #[trigger] next@.contains(c) <==> now.contains(c) by {
                    assert(next0.contains(c) <==> old_now.contains(c));
                }
                assert(next@.no_duplicates());
            }
        }
        proof {
            assert forall|b: u32| #[trigger] merges_to(cube, level, freed(cube, b), b) implies (b & rest != b
                <==> b & remaining != b || b == bit) by {
                lemma_rest_bits(remaining, b);
            }
            assert forall|d: Cube| #[trigger] now.contains(d) <==> found.contains(d) || exists|b: u32|
                #[trigger] merges_to(cube, level, d, b) && b & rest != b by {
                if now.contains(d) && !found.contains(d) {
                    if old_now.contains(d) {
                        let b = choose|b: u32| #[trigger] merges_to(cube, level, d, b) && b & remaining != b;
                        assert(merges_to(cube, level, freed(cube, b), b));
                        assert(merges_to(cube, level, d, b) && b & rest != b);
                    } else {
                        assert(merges_to(cube, level, d, bit));
                        assert(bit & rest != bit);
                    }
                }
                if exists|b: u32| #[trigger] merges_to(cube, level, d, b) && b & rest != b {
                    let b = choose|b: u32| #[trigger] merges_to(cube, level, d, b) && b & rest != b;
                    assert(merges_to(cube, level, freed(cube, b), b));
                    if b != bit {
                        assert(b & remaining != b);
                        assert(old_now.contains(d));
                    }
                }
            }
        }
        remaining = rest;
    }
    proof {
        assert forall|b: u32| single(b) implies b & 0 != b by {
            assert(b & 0 == 0) by (bit_vector);
        }
        assert(now =~= Set::new(
            |d: Cube| found.contains(d) || exists|b: u32| #[trigger] merges_to(cube, level, d, b),
        ));
    }
    combined
}

proof fn lemma_step_bits(remaining: u32, mask: u32)
    by (bit_vector)
    requires
        remaining & mask == remaining,
        remaining != 0,
    ensures
        (remaining ^ (remaining & ((remaining - 1) as u32))) & mask == remaining ^ (remaining & ((remaining - 1) as u32)),
        (remaining & ((remaining - 1) as u32)) & mask == remaining & ((remaining - 1) as u32),
        (remaining ^ (remaining & ((remaining - 1) as u32))) & (remaining & ((remaining - 1) as u32))
            != remaining ^ (remaining & ((remaining - 1) as u32)),
{
}

proof fn lemma_rest_bits(remaining: u32, b: u32)
    by (bit_vector)
    requires
        remaining != 0,
        single(b),
    ensures
        b & (remaining & ((remaining - 1) as u32)) != b <==> (b & remaining != b || b == remaining ^ (remaining & ((
        remaining - 1) as u32))),
{
}

proof fn lemma_key_injective()
    ensures
        forall|c: Cube, d: Cube| #[trigger] key(c) == #[trigger] key(d) ==> c == d,
{
}

proof fn lemma_push_contains(s: Seq<Cube>, x: Cube)
    ensures
        forall|c: Cube| #[trigger] s.push(x).contains(c) <==> s.contains(c) || c == x,
{
    assert forall|c: Cube| #[trigger] s.push(x).contains(c) <==> s.contains(c) || c == x by {
        if s.contains(c) {
            let i = choose|i: int| 0 <= i < s.len() && s[i] == c;
            assert(s.push(x)[i] == c);
        }
        assert(s.push(x)[s.len() as int] == x);
    }
}

/// The next level consists of what the cubes of this one merge to.
proof fn lemma_next_level(care: Set<u32>, full: u32, w: int, d: Cube)
    requires
        0 <= w <= weight(full),
    ensures
        level_set(care, full, w - 1).contains(d) <==> exists|c: Cube, b: u32|
            level_set(care, full, w).contains(c) && #[trigger] merges_to(c, level_set(care, full, w), d, b),
{
    let level = level_set(care, full, w);
    if level_set(care, full, w - 1).contains(d) {
        assert(d.mask & full == d.mask);
        let b = missing_bit(d.mask, full);
        lemma_missing_bit(d.mask, full);
        lemma_lowest(full & !d.mask);
        let c = Cube { bits: d.bits, mask: d.mask | b };
        lemma_added_bit(d.bits, d.mask, b, full);
        lemma_weight_clear(c.mask, b);
        lemma_freed_implicant(c, b, care, full);
        assert(freed(c, b) == d);
        assert(merges_to(c, level, d, b));
    }
    if exists|c: Cube, b: u32| level.contains(c) && #[trigger] merges_to(c, level, d, b) {
        let (c, b) = choose|c: Cube, b: u32| level.contains(c) && #[trigger] merges_to(c, level, d, b);
        lemma_weight_clear(c.mask, b);
        lemma_freed_implicant(c, b, care, full);
    }
}

/// Merges one level: collects its unmerged cubes, which are prime, and
/// returns the level below.
fn merge_level(
    current: &Vec<Cube>,
    present: &HashSet<u64>,
    primes: &mut Vec<Cube>,
    Ghost(care): Ghost<Set<u32>>,
    Ghost(full): Ghost<u32>,
    Ghost(w): Ghost<int>,
) -> (r: (Vec<Cube>, HashSet<u64>))
    requires
        0 <= w <= weight(full),
        holds(current@, present@, level_set(care, full, w)),
        old(primes)@.no_duplicates(),
        forall|c: Cube| #[trigger] old(primes)@.contains(c) <==> prime(c, care, full) && weight(c.mask) > w,
    ensures
        holds(r.0@, r.1@, level_set(care, full, w - 1)),
        final(primes)@.no_duplicates(),
        forall|c: Cube| #[trigger] final(primes)@.contains(c) <==> prime(c, care, full) && weight(c.mask) > w - 1,
{
    let mut next: Vec<Cube> = Vec::new();
    let mut next_keys: HashSet<u64> = HashSet::new();
    let ghost level = level_set(care, full, w);
    let ghost mut found: Set<Cube> = Set::new(|c: Cube| false);
    let ghost primes0 = primes@;
    let mut i: usize = 0;
    while i < current.len()
        invariant
            i <= current.len(),
            level == level_set(care, full, w),
            holds(current@, present@, level),
            holds(next@, next_keys@, found),
            forall|d: Cube| #[trigger]
                found.contains(d) <==> exists|k: int, b: u32|
                    0 <= k < i && #[trigger] merges_to(current@[k], level, d, b),
            primes@.no_duplicates(),
            forall|c: Cube| #[trigger]
                primes0.contains(c) <==> prime(c, care, full) && weight(c.mask) > w,
            forall|c: Cube| #[trigger]
                primes@.contains(c) <==> primes0.contains(c) || (prime(c, care, full) && exists|k: int|
                    0 <= k < i && current@[k] == c),
        decreases current.len() - i,
    {
        let cube = current[i];
        let ghost old_found = found;
        proof {
            found = Set::new(
                |d: Cube| old_found.contains(d) || exists|b: u32| #[trigger] merges_to(cube, level, d, b),
            );
            assert(current@.contains(cube));
        }
        let combined = merge_cube(cube, present, &mut next, &mut next_keys, Ghost(level), Ghost(old_found));
        proof {
            assert forall|d: Cube| #[trigger] found.contains(d) <==> exists|k: int, b: u32|
                0 <= k < i + 1 && #[trigger] merges_to(current@[k], level, d, b) by {
                if found.contains(d) {
                    if old_found.contains(d) {
                        let (k, b) = choose|k: int, b: u32|
                            0 <= k < i && #[trigger] merges_to(current@[k], level, d, b);
                        assert(0 <= k < i + 1 && merges_to(current@[k], level, d, b));
                    } else {
                        let b = choose|b: u32| #[trigger] merges_to(cube, level, d, b);
                        assert(merges_to(current@[i as int], level, d, b));
                    }
                }
                if exists|k: int, b: u32| 0 <= k < i + 1 && #[trigger] merges_to(current@[k], level, d, b) {
                    let (k, b) = choose|k: int, b: u32|
                        0 <= k < i + 1 && #[trigger] merges_to(current@[k], level, d, b);
                    if k == i {
                        assert(merges_to(cube, level, d, b));
                    }
                }
            }
            lemma_prime(cube, care, full);
            if combined {
                let b = choose|b: u32| #[trigger] merges_to(cube, level, freed(cube, b), b);
                assert(implicant(partner(cube, b), care, full));
                assert(!prime(cube, care, full));
            } else {
                assert forall|b: u32|
                    #![trigger partner(cube, b)]
                    single(b) && b & cube.mask == b implies !implicant(partner(cube, b), care, full) by {
                    assert(!merges_to(cube, level, freed(cube, b), b));
                }
                assert(prime(cube, care, full));
            }
        }
        let ghost before = primes@;
        if !combined {
            proof {
                lemma_push_contains(primes@, cube);
                assert(!primes0.contains(cube));
                assert(!primes@.contains(cube));
            }
            primes.push(cube);
        }
        proof {
            assert forall|c: Cube| #[trigger] primes@.contains(c) <==> primes0.contains(c) || (prime(
                c,
                care,
                full,
            ) && exists|k: int| 0 <= k < i + 1 && current@[k] == c) by {
                assert(before.contains(c) <==> primes0.contains(c) || (prime(c, care, full) && exists|k: int|
                    0 <= k < i && current@[k] == c));
                if c == cube {
                    assert(current@[i as int] == c);
                }
            }
        }
        i = i + 1;
    }
    proof {
        let target = level_set(care, full, w - 1);
        assert forall|d: Cube| found.contains(d) <==> target.contains(d) by {
            lemma_next_level(care, full, w, d);
            if found.contains(d) {
                let (k, b) = choose|k: int, b: u32|
                    0 <= k < current@.len() && #[trigger] merges_to(current@[k], level, d, b);
                assert(current@.contains(current@[k]));
                assert(level.contains(current@[k]) && merges_to(current@[k], level, d, b));
            }
            if target.contains(d) {
                let (c, b) = choose|c: Cube, b: u32| level.contains(c) && #[trigger] merges_to(c, level, d, b);
                assert(current@.contains(c));
                let k = choose|k: int| 0 <= k < current@.len() && current@[k] == c;
                assert(merges_to(current@[k], level, d, b));
            }
        }
        assert(found =~= target);
        assert forall|c: Cube| #[trigger] primes@.contains(c) <==> prime(c, care, full) && weight(c.mask) > w - 1 by {
            if prime(c, care, full) && weight(c.mask) == w {
                assert(level.contains(c));
                assert(current@.contains(c));
            }
            if exists|k: int| 0 <= k < current@.len() && current@[k] == c {
                assert(current@.contains(c));
                assert(level.contains(c));
            }
        }
    }
    (next, next_keys)
}

proof fn lemma_full_cube(m: u32, x: u32, full: u32)
    by (bit_vector)
    requires
        m & full == m,
        x & full == x,
    ensures
        full & full == full,
        m & full == x <==> m == x,
{
}

/// The top level: one cube per minterm of the care set.
proof fn lemma_top_level(care: Set<u32>, full: u32, c: Cube)
    requires
        forall|m: u32| #[trigger] care.contains(m) ==> in_space(m, full),
    ensures
        level_set(care, full, weight(full) as int).contains(c) <==> c.mask == full && care.contains(c.bits),
{
    if c.mask == full && care.contains(c.bits) {
        lemma_full_cube(c.bits, c.bits, full);
        assert forall|m: u32| #[trigger] c.matches(m) && in_space(m, full) implies care.contains(m) by {
            lemma_full_cube(m, c.bits, full);
        }
    }
    if level_set(care, full, weight(full) as int).contains(c) {
        if c.mask != full {
            lemma_weight_subset(c.mask, full);
        }
        lemma_full_cube(c.bits, c.bits, full);
        assert(c.matches(c.bits));
    }
}

/// A cube on a lower level has one above it on every higher level.
proof fn lemma_level_climb(care: Set<u32>, full: u32, c: Cube, v: int, w: int) -> (d: Cube)
    requires
        level_set(care, full, v).contains(c),
        v <= w <= weight(full),
    ensures
        level_set(care, full, w).contains(d),
    decreases w - v,
{
    if v == w {
        c
    } else {
        lemma_next_level(care, full, v + 1, c);
        let level = level_set(care, full, v + 1);
        let (up, b) = choose|up: Cube, b: u32| level.contains(up) && #[trigger] merges_to(up, level, c, b);
        lemma_level_climb(care, full, up, v + 1, w)
    }
}

proof fn lemma_cube_order()
    ensures
        crate::order::total_preorder(cube_order()),
{
}

/// Sorts distinct cubes into strictly ascending order.
fn sort_cubes(cubes: Vec<Cube>) -> (r: Vec<Cube>)
    requires
        cubes@.no_duplicates(),
    ensures
        cubes_ascend(r@),
        forall|c: Cube| #[trigger] r@.contains(c) <==> cubes@.contains(c),
        r@ == stable_sorted(cubes@, cube_order()),
{
    let at_most = |a: &Cube, b: &Cube| -> (t: bool)
        ensures
            t == cube_order()(*a, *b),
        { a.bits < b.bits || (a.bits == b.bits && a.mask <= b.mask) };
    proof {
        lemma_cube_order();
        lemma_stable_sorted(cubes@, cube_order());
        lemma_stable_sorted_contains(cubes@, cube_order());
        crate::order::lemma_stable_sorted_distinct(cubes@, cube_order());
    }
    sort_stable(cubes, &at_most, Ghost(cube_order()))
}

/// The elements of a set, in the order in which it is walked.
fn members(set: &HashSet<u32>) -> (r: Vec<u32>)
    ensures
        forall|m: u32| #[trigger] r@.contains(m) <==> set@.contains(m),
{
    let mut r: Vec<u32> = Vec::new();
    let items = set.iter();
    let ghost all = items.remaining().unref();
    for m in it: items
        invariant
            it.seq().unref() == all,
            r@ == all.take(it.index()),
    {
        r.push(*m);
        assert(r@ =~= all.take(it.index() + 1));
    }
    proof {
        assert(r@ =~= all);
        assert forall|m: u32| #[trigger] r@.contains(m) <==> set@.contains(m) by {
            assert(r@.to_set().contains(m) <==> r@.contains(m));
        }
    }
    r
}

/// All prime implicants of the function whose care-set (ON ∪ DC) is `care`.
///
/// Classic iterative combining: two cubes that specify the same variables and
/// differ in exactly one value merge into a cube with that variable freed.
/// Cubes that never merge are prime.
pub fn prime_implicants(care: &HashSet<u32>, n: usize) -> (r: Vec<Cube>)
    requires
        n <= 31,
        forall|m: u32| #[trigger] care@.contains(m) ==> in_space(m, full_mask(n as nat)),
    ensures
        cubes_ascend(r@),
        forall|c: Cube| #[trigger] r@.contains(c) <==> prime(c, care@, full_mask(n as nat)),
{
    let full: u32 = if n == 0 {
        0
    } else {
        proof {
            let n32 = n as u32;
            assert(1u32 << n32 >= 1) by (bit_vector)
                requires
                    n32 <= 31,
            ;
        }
        (1u32 << n) - 1
    };
    let ghost w0 = weight(full) as int;
    let mut current: Vec<Cube> = Vec::new();
    let mut present: HashSet<u64> = HashSet::new();
    let ghost mut seen: Set<Cube> = Set::new(|c: Cube| false);
    let minterms = members(care);
    let mut i: usize = 0;
    while i < minterms.len()
        invariant
            i <= minterms.len(),
            holds(current@, present@, seen),
            forall|c: Cube| #[trigger]
                seen.contains(c) <==> c.mask == full && exists|k: int| 0 <= k < i && minterms@[k] == c.bits,
        decreases minterms.len() - i,
    {
        let cube = Cube { bits: minterms[i], mask: full };
        let ghost current0 = current@;
        let ghost keys0 = present@;
        let ghost seen0 = seen;
        if present.insert(cube_key(cube)) {
            current.push(cube);
        }
        proof {
            assert(keys0.contains(key(cube)) <==> current0.contains(cube));
            seen = seen.insert(cube);
            lemma_key_injective();
            lemma_push_contains(current0, cube);
            assert forall|c: Cube| #[trigger] present@.contains(key(c)) <==> seen.contains(c) by {
                assert(keys0.contains(key(c)) <==> seen0.contains(c));
            }
            assert forall|c: Cube| #[trigger] current@.contains(c) <==> seen.contains(c) by {
                assert(current0.contains(c) <==> seen0.contains(c));
            }
            assert(current@.no_duplicates());
        }
        i = i + 1;
    }
    proof {
        let level = level_set(care@, full, w0);
        assert forall|c: Cube| seen.contains(c) <==> level.contains(c) by {
            assert(minterms@.contains(c.bits) <==> care@.contains(c.bits));
            lemma_top_level(care@, full, c);
        }
        assert(seen =~= level);
    }
    let mut primes: Vec<Cube> = Vec::new();
    let ghost mut w = w0;
    proof {
        assert forall|c: Cube| #[trigger] primes@.contains(c) <==> prime(c, care@, full) && weight(c.mask) > w by {
            if prime(c, care@, full) && c.mask != full {
                lemma_weight_subset(c.mask, full);
            }
        }
    }
    while current.len() > 0
        invariant
            full == full_mask(n as nat),
            -1 <= w <= weight(full),
            holds(current@, present@, level_set(care@, full, w)),
            primes@.no_duplicates(),
            forall|c: Cube| #[trigger] primes@.contains(c) <==> prime(c, care@, full) && weight(c.mask) > w,
        decreases w + 1,
    {
        proof {
            assert(current@.contains(current@[0]));
            assert(w >= 0);
        }
        let (next, next_keys) = merge_level(&current, &present, &mut primes, Ghost(care@), Ghost(full), Ghost(w));
        current = next;
        present = next_keys;
        proof {
            w = w - 1;
        }
    }
    proof {
        assert forall|c: Cube| #[trigger] primes@.contains(c) <==> prime(c, care@, full) by {
            if prime(c, care@, full) && weight(c.mask) <= w {
                let d = lemma_level_climb(care@, full, c, weight(c.mask) as int, w);
                assert(current@.contains(d));
            }
        }
    }
    sort_cubes(primes)
}

proof fn lemma_generalized_match(db: u32, dm: u32, cb: u32, cm: u32, m: u32)
    by (bit_vector)
    requires
        dm & cm == dm,
        cb & dm == db,
        m & cm == cb,
    ensures
        m & dm == db,
{
}

proof fn lemma_prime_above(c: Cube, care: Set<u32>, full: u32, m: u32) -> (p: Cube)
    requires
        implicant(c, care, full),
        c.matches(m),
    ensures
        prime(p, care, full),
        p.matches(m),
    decreases weight(c.mask),
{
    if prime(c, care, full) {
        c
    } else {
        let d = choose|d: Cube| #[trigger] implicant(d, care, full) && d.generalizes(c) && d != c;
        if d.mask == c.mask {
            assert(c.bits & c.mask == c.bits);
            assert(false);
        }
        lemma_weight_subset(d.mask, c.mask);
        lemma_generalized_match(d.bits, d.mask, c.bits, c.mask, m);
        lemma_prime_above(d, care, full, m)
    }
}

/// Every minterm of the care set is covered by a prime implicant.
pub proof fn lemma_prime_covers(care: Set<u32>, full: u32, m: u32) -> (p: Cube)
    requires
        care.contains(m),
        in_space(m, full),
    ensures
        prime(p, care, full),
        p.matches(m),
{
    let c = Cube { bits: m, mask: full };
    lemma_full_cube(m, m, full);
    assert forall|k: u32| #[trigger] c.matches(k) && in_space(k, full) implies care.contains(k) by {
        lemma_full_cube(k, m, full);
    }
    lemma_prime_above(c, care, full, m)
}

/// The cubes that cover a minterm.
pub open spec fn coverers(available: Seq<Cube>, m: u32) -> Seq<Cube> {
    available.filter(|c: Cube| c.matches(m))
}

/// The minterms that a cube covers.
pub open spec fn covered(uncovered: Seq<u32>, c: Cube) -> Seq<u32> {
    uncovered.filter(|m: u32| c.matches(m))
}

/// The only cube that covers the first minterm with just one cover.
pub open spec fn essential(available: Seq<Cube>, uncovered: Seq<u32>) -> Option<Cube>
    decreases uncovered.len(),
{
    if uncovered.len() == 0 {
        None
    } else if coverers(available, uncovered[0]).len() == 1 {
        Some(coverers(available, uncovered[0])[0])
    } else {
        essential(available, uncovered.skip(1))
    }
}

/// `a` covers more than `b`; or as much with fewer literals; or comes first by bits, then mask.
pub open spec fn at_least_as_broad(a: Cube, b: Cube, uncovered: Seq<u32>) -> bool {
    let ca = covered(uncovered, a).len();
    let cb = covered(uncovered, b).len();
    let wa = weight(a.mask);
    let wb = weight(b.mask);
    ca > cb || (ca == cb && (wa < wb || (wa == wb && cube_le(a, b))))
}

/// The broadest of the available cubes.
pub open spec fn broadest(available: Seq<Cube>, uncovered: Seq<u32>) -> Cube
    decreases available.len(),
{
    if available.len() <= 1 {
        available[0]
    } else {
        let best = broadest(available.drop_last(), uncovered);
        if at_least_as_broad(available.last(), best, uncovered) {
            available.last()
        } else {
            best
        }
    }
}

/// The cube that is taken next: an essential one, else the broadest.
pub open spec fn next_pick(available: Seq<Cube>, uncovered: Seq<u32>) -> Cube {
    match essential(available, uncovered) {
        Some(c) => c,
        None => broadest(available, uncovered),
    }
}

/// The cubes taken one after the other until every minterm is covered.
pub open spec fn greedy_cover(available: Seq<Cube>, uncovered: Seq<u32>) -> Seq<Cube>
    decreases uncovered.len(),
{
    let pick = next_pick(available, uncovered);
    let rest = uncovered.filter(|m: u32| !pick.matches(m));
    if uncovered.len() == 0 || rest.len() >= uncovered.len() {
        Seq::empty()
    } else {
        seq![pick] + greedy_cover(available.filter(|c: Cube| c != pick), rest)
    }
}

pub open spec fn minterm_order() -> spec_fn(u32, u32) -> bool {
    |a: u32, b: u32| a <= b
}

/// The distinct minterms in ascending order.
pub open spec fn distinct_minterms(on: Seq<u32>) -> Seq<u32> {
    without_repeats(stable_sorted(on, minterm_order()))
}

/// Every minterm is covered by one of the cubes.
pub open spec fn covers_all(cubes: Seq<Cube>, minterms: Seq<u32>) -> bool {
    forall|m: u32| #[trigger] minterms.contains(m) ==> exists|c: Cube| #[trigger] cubes.contains(c) && c.matches(m)
}

proof fn lemma_weight_at_most(x: u32)
    ensures
        weight(x) <= x,
    decreases x,
{
    if x != 0 {
        lemma_clear_lowest(x);
        lemma_weight_at_most(x & ((x - 1) as u32));
    }
}

/// The number of bits set.
fn count_bits(x: u32) -> (r: u32)
    ensures
        r == weight(x),
{
    let mut left: u32 = x;
    let mut n: u32 = 0;
    proof {
        lemma_weight_at_most(x);
    }
    while left != 0
        invariant
            n + weight(left) == weight(x),
            weight(x) <= x,
        decreases left,
    {
        proof {
            lemma_clear_lowest(left);
        }
        left = left & (left - 1);
        n = n + 1;
    }
    n
}

/// The cube that alone covers `m`, if there is just one.
fn sole_coverer(available: &Vec<Cube>, m: u32) -> (r: Option<Cube>)
    ensures
        r == if coverers(available@, m).len() == 1 {
            Some(coverers(available@, m)[0])
        } else {
            None
        },
{
    let ghost p = |c: Cube| c.matches(m);
    let mut found: Option<Cube> = None;
    let mut i: usize = 0;
    proof {
        lemma_filter_ends(available@, p);
    }
    while i < available.len()
        invariant
            i <= available.len(),
            p == |c: Cube| c.matches(m),
            match found {
                Some(c) => available@.take(i as int).filter(p) == seq![c],
                None => available@.take(i as int).filter(p).len() == 0,
            },
        decreases available.len() - i,
    {
        proof {
            lemma_filter_step(available@, p, i as int);
        }
        if available[i].covers(m) {
            if found.is_some() {
                proof {
                    lemma_filter_take_len(available@, p, i + 1);
                }
                return None;
            }
            found = Some(available[i]);
            assert(available@.take(i + 1).filter(p) =~= seq![available@[i as int]]);
        }
        i = i + 1;
    }
    proof {
        lemma_filter_ends(available@, p);
    }
    found
}

proof fn lemma_filter_take_len(s: Seq<Cube>, p: spec_fn(Cube) -> bool, i: int)
    requires
        0 <= i <= s.len(),
    ensures
        s.take(i).filter(p).len() <= s.filter(p).len(),
    decreases s.len() - i,
{
    lemma_filter_ends(s, p);
    if i < s.len() {
        lemma_filter_step(s, p, i);
        lemma_filter_take_len(s, p, i + 1);
    }
}

fn find_essential(available: &Vec<Cube>, uncovered: &Vec<u32>) -> (r: Option<Cube>)
    ensures
        r == essential(available@, uncovered@),
{
    let mut i: usize = 0;
    assert(uncovered@.skip(0) =~= uncovered@);
    while i < uncovered.len()
        invariant
            i <= uncovered.len(),
            essential(available@, uncovered@) == essential(available@, uncovered@.skip(i as int)),
        decreases uncovered.len() - i,
    {
        let only = sole_coverer(available, uncovered[i]);
        if only.is_some() {
            return only;
        }
        assert(uncovered@.skip(i as int).skip(1) =~= uncovered@.skip(i + 1));
        i = i + 1;
    }
    None
}

fn coverage(c: Cube, uncovered: &Vec<u32>) -> (r: usize)
    ensures
        r == covered(uncovered@, c).len(),
{
    let ghost p = |m: u32| c.matches(m);
    let mut n: usize = 0;
    let mut i: usize = 0;
    proof {
        lemma_filter_ends(uncovered@, p);
    }
    while i < uncovered.len()
        invariant
            i <= uncovered.len(),
            n <= i,
            p == |m: u32| c.matches(m),
            n == uncovered@.take(i as int).filter(p).len(),
        decreases uncovered.len() - i,
    {
        proof {
            lemma_filter_step(uncovered@, p, i as int);
        }
        if c.covers(uncovered[i]) {
            n = n + 1;
        }
        i = i + 1;
    }
    proof {
        lemma_filter_ends(uncovered@, p);
    }
    n
}

fn find_broadest(available: &Vec<Cube>, uncovered: &Vec<u32>) -> (r: Cube)
    requires
        available.len() > 0,
    ensures
        r == broadest(available@, uncovered@),
{
    let mut best = available[0];
    let mut best_cover: usize = coverage(best, uncovered);
    let mut i: usize = 1;
    while i < available.len()
        invariant
            1 <= i <= available.len(),
            best == broadest(available@.take(i as int), uncovered@),
            best_cover == covered(uncovered@, best).len(),
        decreases available.len() - i,
    {
        let c = available[i];
        let cover: usize = coverage(c, uncovered);
        assert(available@.take(i + 1).drop_last() =~= available@.take(i as int));
        let better = if cover != best_cover {
            cover > best_cover
        } else {
            let w: u32 = count_bits(c.mask);
            let best_w: u32 = count_bits(best.mask);
            if w != best_w {
                w < best_w
            } else {
                c.bits < best.bits || (c.bits == best.bits && c.mask <= best.mask)
            }
        };
        if better {
            best = c;
            best_cover = cover;
        }
        i = i + 1;
    }
    assert(available@.take(i as int) =~= available@);
    best
}

proof fn lemma_broadest(available: Seq<Cube>, uncovered: Seq<u32>)
    requires
        available.len() > 0,
    ensures
        available.contains(broadest(available, uncovered)),
        forall|c: Cube| #[trigger]
            available.contains(c) ==> covered(uncovered, c).len() <= covered(
                uncovered,
                broadest(available, uncovered),
            ).len(),
    decreases available.len(),
{
    if available.len() == 1 {
        assert(available[0] == broadest(available, uncovered));
    } else {
        let front = available.drop_last();
        lemma_broadest(front, uncovered);
        let best = broadest(front, uncovered);
        let i = choose|i: int| 0 <= i < front.len() && front[i] == best;
        assert(available[i] == best);
        assert(available[available.len() - 1] == available.last());
        assert forall|c: Cube| #[trigger] available.contains(c) implies covered(uncovered, c).len() <= covered(
            uncovered,
            broadest(available, uncovered),
        ).len() by {
            let k = choose|k: int| 0 <= k < available.len() && available[k] == c;
            if k < front.len() {
                assert(front[k] == c);
                assert(front.contains(c));
            }
        }
    }
}

proof fn lemma_essential(available: Seq<Cube>, uncovered: Seq<u32>)
    ensures
        essential(available, uncovered) matches Some(c) ==> {
            &&& available.contains(c)
            &&& exists|m: u32| #[trigger] uncovered.contains(m) && c.matches(m)
        },
    decreases uncovered.len(),
{
    if uncovered.len() > 0 {
        let m = uncovered[0];
        if coverers(available, m).len() == 1 {
            let c = coverers(available, m)[0];
            lemma_filter_contains(available, |c: Cube| c.matches(m));
            assert(coverers(available, m).contains(c));
            assert(uncovered.contains(m));
        } else {
            lemma_essential(available, uncovered.skip(1));
            if let Some(c) = essential(available, uncovered.skip(1)) {
                let k = choose|k: u32| #[trigger] uncovered.skip(1).contains(k) && c.matches(k);
                let i = choose|i: int| 0 <= i < uncovered.skip(1).len() && uncovered.skip(1)[i] == k;
                assert(uncovered[i + 1] == k);
                assert(uncovered.contains(k));
            }
        }
    }
}

/// The cube taken next is available and covers something.
proof fn lemma_next_pick(available: Seq<Cube>, uncovered: Seq<u32>)
    requires
        uncovered.len() > 0,
        covers_all(available, uncovered),
    ensures
        available.contains(next_pick(available, uncovered)),
        exists|m: u32| #[trigger] uncovered.contains(m) && next_pick(available, uncovered).matches(m),
{
    lemma_essential(available, uncovered);
    if essential(available, uncovered) is None {
        let m = uncovered[0];
        assert(uncovered.contains(m));
        let c = choose|c: Cube| #[trigger] available.contains(c) && c.matches(m);
        lemma_broadest(available, uncovered);
        lemma_filter_nonempty(uncovered, |m: u32| c.matches(m), m);
        let best = broadest(available, uncovered);
        let hit = covered(uncovered, best)[0];
        assert(covered(uncovered, best).contains(hit));
        lemma_filter_contains(uncovered, |m: u32| best.matches(m));
        assert(uncovered.contains(hit) && best.matches(hit));
    }
}

/// What is taken one after the other was available and covers every minterm.
pub proof fn lemma_greedy_cover(available: Seq<Cube>, uncovered: Seq<u32>)
    requires
        covers_all(available, uncovered),
    ensures
        covers_all(greedy_cover(available, uncovered), uncovered),
        forall|c: Cube| #[trigger] greedy_cover(available, uncovered).contains(c) ==> available.contains(c),
    decreases uncovered.len(),
{
    if uncovered.len() > 0 {
        let pick = next_pick(available, uncovered);
        let keep = |m: u32| !pick.matches(m);
        let other = |c: Cube| c != pick;
        let rest = uncovered.filter(keep);
        let others = available.filter(other);
        lemma_next_pick(available, uncovered);
        let hit = choose|m: u32| #[trigger] uncovered.contains(m) && pick.matches(m);
        lemma_filter_shrinks(uncovered, keep, hit);
        lemma_filter_contains(uncovered, keep);
        lemma_filter_contains(available, other);
        assert forall|m: u32| #[trigger] rest.contains(m) implies exists|c: Cube| #[trigger] others.contains(c)
            && c.matches(m) by {
            assert(uncovered.contains(m));
            let c = choose|c: Cube| #[trigger] available.contains(c) && c.matches(m);
            assert(others.contains(c));
        }
        lemma_greedy_cover(others, rest);
        let tail = greedy_cover(others, rest);
        let all = greedy_cover(available, uncovered);
        assert(all == seq![pick] + tail);
        assert(all[0] == pick);
        assert forall|m: u32| #[trigger] uncovered.contains(m) implies exists|c: Cube| #[trigger] all.contains(c)
            && c.matches(m) by {
            if pick.matches(m) {
                assert(all.contains(pick));
            } else {
                assert(rest.contains(m));
                let c = choose|c: Cube| #[trigger] tail.contains(c) && c.matches(m);
                let i = choose|i: int| 0 <= i < tail.len() && tail[i] == c;
                assert(all[i + 1] == c);
                assert(all.contains(c));
            }
        }
        assert forall|c: Cube| #[trigger] all.contains(c) implies available.contains(c) by {
            let i = choose|i: int| 0 <= i < all.len() && all[i] == c;
            if i > 0 {
                assert(tail[i - 1] == c);
                assert(tail.contains(c));
                assert(others.contains(c));
            }
        }
    }
}

fn not_covered(uncovered: &Vec<u32>, pick: Cube) -> (r: Vec<u32>)
    ensures
        r@ == uncovered@.filter(|m: u32| !pick.matches(m)),
{
    let ghost p = |m: u32| !pick.matches(m);
    let mut r: Vec<u32> = Vec::new();
    let mut i: usize = 0;
    proof {
        lemma_filter_ends(uncovered@, p);
    }
    while i < uncovered.len()
        invariant
            i <= uncovered.len(),
            p == |m: u32| !pick.matches(m),
            r@ == uncovered@.take(i as int).filter(p),
        decreases uncovered.len() - i,
    {
        proof {
            lemma_filter_step(uncovered@, p, i as int);
        }
        if !pick.covers(uncovered[i]) {
            r.push(uncovered[i]);
        }
        i = i + 1;
    }
    proof {
        lemma_filter_ends(uncovered@, p);
    }
    r
}

fn other_cubes(available: &Vec<Cube>, pick: Cube) -> (r: Vec<Cube>)
    ensures
        r@ == available@.filter(|c: Cube| c != pick),
{
    let ghost p = |c: Cube| c != pick;
    let mut r: Vec<Cube> = Vec::new();
    let mut i: usize = 0;
    proof {
        lemma_filter_ends(available@, p);
    }
    while i < available.len()
        invariant
            i <= available.len(),
            p == |c: Cube| c != pick,
            r@ == available@.take(i as int).filter(p),
        decreases available.len() - i,
    {
        proof {
            lemma_filter_step(available@, p, i as int);
        }
        if available[i] != pick {
            r.push(available[i]);
        }
        i = i + 1;
    }
    proof {
        lemma_filter_ends(available@, p);
    }
    r
}

/// Membership survives sorting and removing repeats.
pub proof fn lemma_distinct_minterms(on: Seq<u32>)
    ensures
        forall|m: u32| #[trigger] distinct_minterms(on).contains(m) <==> on.contains(m),
{
    lemma_stable_sorted_contains(on, minterm_order());
    lemma_without_repeats(stable_sorted(on, minterm_order()));
    assert forall|m: u32| #[trigger] distinct_minterms(on).contains(m) <==> on.contains(m) by {
        assert(stable_sorted(on, minterm_order()).contains(m) <==> on.contains(m));
    }
}

fn distinct(on: &[u32]) -> (r: Vec<u32>)
    ensures
        r@ == distinct_minterms(on@),
{
    let at_most = |a: &u32, b: &u32| -> (t: bool)
        ensures
            t == minterm_order()(*a, *b),
        { *a <= *b };
    let sorted = sort_stable(vstd::slice::slice_to_vec(on), &at_most, Ghost(minterm_order()));
    let mut r: Vec<u32> = Vec::new();
    let mut i: usize = 0;
    while i < sorted.len()
        invariant
            i <= sorted.len(),
            r@ == without_repeats(sorted@.take(i as int)),
        decreases sorted.len() - i,
    {
        assert(sorted@.take(i + 1).drop_last() =~= sorted@.take(i as int));
        if i == 0 || sorted[i] != sorted[i - 1] {
            r.push(sorted[i]);
            assert(r@ =~= without_repeats(sorted@.take(i + 1)));
        }
        i = i + 1;
    }
    assert(sorted@.take(i as int) =~= sorted@);
    r
}

/// Select a small set of prime implicants covering every ON minterm
/// (don't-cares need no cover). Essential primes are taken first; remaining
/// gaps are filled greedily preferring broad, general cubes. The result is
/// a correct cover, near-minimal in practice, and deterministic.
pub fn select_cover(primes: &[Cube], on: &[u32]) -> (r: Vec<Cube>)
    requires
        covers_all(primes@, on@),
    ensures
        r@ == stable_sorted(greedy_cover(primes@, distinct_minterms(on@)), cube_order()),
        covers_all(r@, on@),
        forall|c: Cube| #[trigger] r@.contains(c) ==> primes@.contains(c),
        cubes_ascend(r@),
{
    let mut uncovered: Vec<u32> = distinct(on);
    let mut available: Vec<Cube> = vstd::slice::slice_to_vec(primes);
    let mut chosen: Vec<Cube> = Vec::new();
    let ghost all = greedy_cover(primes@, distinct_minterms(on@));
    proof {
        lemma_distinct_minterms(on@);
        assert forall|m: u32| #[trigger] uncovered@.contains(m) implies exists|c: Cube| #[trigger]
            available@.contains(c) && c.matches(m) by {
            assert(on@.contains(m));
        }
    }
    while uncovered.len() > 0
        invariant
            chosen@ + greedy_cover(available@, uncovered@) == all,
            covers_all(available@, uncovered@),
            chosen@.no_duplicates(),
            forall|c: Cube| #[trigger] chosen@.contains(c) ==> primes@.contains(c) && !available@.contains(c),
            forall|c: Cube| #[trigger] available@.contains(c) ==> primes@.contains(c),
            forall|m: u32| #[trigger]
                on@.contains(m) ==> uncovered@.contains(m) || exists|c: Cube| #[trigger]
                    chosen@.contains(c) && c.matches(m),
        decreases uncovered.len(),
    {
        let pick = match find_essential(&available, &uncovered) {
            Some(c) => c,
            None => {
                proof {
                    let m = uncovered@[0];
                    assert(uncovered@.contains(m));
                    let c = choose|c: Cube| #[trigger] available@.contains(c) && c.matches(m);
                    assert(available@.contains(c));
                }
                find_broadest(&available, &uncovered)
            },
        };
        let rest = not_covered(&uncovered, pick);
        let others = other_cubes(&available, pick);
        let ghost chosen0 = chosen@;
        chosen.push(pick);
        proof {
            let keep = |m: u32| !pick.matches(m);
            let other = |c: Cube| c != pick;
            lemma_next_pick(available@, uncovered@);
            assert(pick == next_pick(available@, uncovered@));
            let hit = choose|m: u32| #[trigger] uncovered@.contains(m) && pick.matches(m);
            lemma_filter_shrinks(uncovered@, keep, hit);
            lemma_filter_contains(uncovered@, keep);
            lemma_filter_contains(available@, other);
            lemma_push_contains(chosen0, pick);
            assert(chosen0 + greedy_cover(available@, uncovered@) =~= chosen@ + greedy_cover(others@, rest@));
            assert forall|m: u32| #[trigger] rest@.contains(m) implies exists|c: Cube| #[trigger]
                others@.contains(c) && c.matches(m) by {
                assert(uncovered@.contains(m));
                let c = choose|c: Cube| #[trigger] available@.contains(c) && c.matches(m);
                assert(others@.contains(c));
            }
            assert forall|m: u32| #[trigger] on@.contains(m) implies rest@.contains(m) || exists|c: Cube| #[trigger]
                chosen@.contains(c) && c.matches(m) by {
                if uncovered@.contains(m) {
                    if pick.matches(m) {
                        assert(chosen@.contains(pick));
                    } else {
                        assert(rest@.contains(m));
                    }
                } else {
                    let c = choose|c: Cube| #[trigger] chosen0.contains(c) && c.matches(m);
                    assert(chosen@.contains(c));
                }
            }
            assert(!chosen0.contains(pick));
            assert(chosen@.no_duplicates());
        }
        uncovered = rest;
        available = others;
    }
    assert(chosen@ + greedy_cover(available@, uncovered@) =~= chosen@);
    let r = sort_cubes(chosen);
    proof {
        assert forall|m: u32| #[trigger] on@.contains(m) implies exists|c: Cube| #[trigger] r@.contains(c)
            && c.matches(m) by {
            let c = choose|c: Cube| #[trigger] chosen@.contains(c) && c.matches(m);
            assert(r@.contains(c));
        }
    }
    r
}

} // verus!
