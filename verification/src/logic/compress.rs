//! Compression of a decision table to its minimal rules.

use std::collections::HashSet;

use vstd::prelude::*;

use crate::logic::bits::{
    bit_at, bits_agree, lemma_bits_within, lemma_full_mask, lemma_matches_bits, lemma_set_bit, lemma_space, lemma_space_grows,
    lemma_space_size,
};
use crate::logic::qm::{
    cube_order, cubes_ascend, distinct_minterms, full_mask, greedy_cover, in_space, lemma_prime_covers, prime,
    prime_implicants, select_cover, Cube,
};
use crate::logic::table::{CompressedTable, DecisionTable, Entry, Error, Row, Rule, TableView, Tri, MAX_VARIABLES};
use crate::order::{
    lemma_stable_sorted, lemma_stable_sorted_contains, lemma_stable_sorted_distinct, sort_stable, stable_sorted,
    total_preorder,
};
use crate::seqs::{lemma_filter_contains, lemma_filter_ends, lemma_filter_step};
use crate::text::{at_most, copy_texts, lemma_lex_total, lemma_lex_transitive, lex_le, position, texts};

verus! {

broadcast use vstd::std_specs::hash::group_hash_axioms;

/// A condition value admits a truth value.
pub open spec fn admits(t: Tri, value: bool) -> bool {
    match t {
        Tri::True => value,
        Tri::False => !value,
        Tri::Any => true,
    }
}

/// A row or rule applies to a minterm: bit `i` is the value of variable `i`.
pub open spec fn applies(when: Seq<Tri>, m: u32) -> bool {
    forall|i: u32| #![trigger bit_at(m, i)] i < when.len() ==> admits(when[i as int], bit_at(m, i))
}

/// The table observed this minterm with this outcome.
pub open spec fn observed_as(t: TableView, m: u32, outcome: Seq<char>) -> bool {
    exists|r: int| 0 <= r < t.rows.len() && applies((#[trigger] t.rows[r]).when, m) && t.rows[r].outcome == outcome
}

/// Rows `q` and `r` assign different outcomes to `m`.
pub open spec fn clash(t: TableView, q: int, r: int, m: u32) -> bool {
    &&& 0 <= q < r < t.rows.len()
    &&& in_space(m, full_mask(t.variables.len()))
    &&& applies(t.rows[q].when, m)
    &&& applies(t.rows[r].when, m)
    &&& t.rows[q].outcome != t.rows[r].outcome
}

/// No minterm has two outcomes.
pub open spec fn consistent(t: TableView) -> bool {
    forall|q: int, r: int, m: u32| !#[trigger] clash(t, q, r, m)
}

/// The first contradiction, row by row and minterm by minterm.
pub open spec fn first_clash(t: TableView, q: int, r: int, m: u32) -> bool {
    &&& clash(t, q, r, m)
    &&& forall|q2: int, r2: int, m2: u32| #[trigger] clash(t, q2, r2, m2) ==> r < r2 || (r == r2 && m <= m2)
}

/// The minterms that no row with another outcome applies to.
pub open spec fn care_set(t: TableView, outcome: Seq<char>) -> Set<u32> {
    Set::new(
        |m: u32|
            in_space(m, full_mask(t.variables.len())) && forall|r: int|
                0 <= r < t.rows.len() && applies((#[trigger] t.rows[r]).when, m) ==> t.rows[r].outcome == outcome,
    )
}

/// All minterms over `n` variables, ascending.
pub open spec fn all_minterms(n: nat) -> Seq<u32> {
    Seq::new((full_mask(n) + 1) as nat, |i: int| i as u32)
}

/// The minterms observed with an outcome, ascending.
pub open spec fn on_set(t: TableView, outcome: Seq<char>) -> Seq<u32> {
    all_minterms(t.variables.len()).filter(|m: u32| observed_as(t, m, outcome))
}

/// All prime implicants of a care set, in order.
pub open spec fn is_prime_list(primes: Seq<Cube>, care: Set<u32>, full: u32) -> bool {
    &&& cubes_ascend(primes)
    &&& forall|c: Cube| #[trigger] primes.contains(c) <==> prime(c, care, full)
}

/// The cover chosen for an outcome among the prime implicants of its care set.
pub open spec fn is_cover(t: TableView, outcome: Seq<char>, cover: Seq<Cube>) -> bool {
    exists|primes: Seq<Cube>|
        {
            &&& #[trigger] is_prime_list(primes, care_set(t, outcome), full_mask(t.variables.len()))
            &&& cover == stable_sorted(greedy_cover(primes, distinct_minterms(on_set(t, outcome))), cube_order())
        }
}

/// The table's outcomes, once each, in lexicographic order.
pub open spec fn is_label_list(t: TableView, labels: Seq<Seq<char>>) -> bool {
    &&& forall|i: int, j: int|
        #![trigger labels[i], labels[j]]
        0 <= i < j < labels.len() ==> lex_le(labels[i], labels[j]) && labels[i] != labels[j]
    &&& forall|l: Seq<char>| #[trigger]
        labels.contains(l) <==> exists|r: int| 0 <= r < t.rows.len() && (#[trigger] t.rows[r]).outcome == l
}

/// A cube written as one value per variable.
pub open spec fn tris_of(c: Cube, n: nat) -> Seq<Tri> {
    Seq::new(
        n,
        |i: int|
            if !bit_at(c.mask, i as u32) {
                Tri::Any
            } else if bit_at(c.bits, i as u32) {
                Tri::True
            } else {
                Tri::False
            },
    )
}

/// The rules of one outcome.
pub open spec fn rules_of(outcome: Seq<char>, cover: Seq<Cube>, n: nat) -> Seq<Entry> {
    cover.map_values(|c: Cube| Entry { when: tris_of(c, n), outcome })
}

/// The rules of all outcomes, one outcome after the other.
pub open spec fn all_rules(labels: Seq<Seq<char>>, covers: Seq<Seq<Cube>>, n: nat) -> Seq<Entry>
    decreases labels.len(),
{
    if labels.len() == 0 {
        Seq::empty()
    } else {
        all_rules(labels.drop_last(), covers.drop_last(), n) + rules_of(labels.last(), covers.last(), n)
    }
}

/// The rules are those of the covers chosen for the outcomes in order.
pub open spec fn compressed(t: TableView, rules: Seq<Entry>) -> bool {
    exists|labels: Seq<Seq<char>>, covers: Seq<Seq<Cube>>|
        {
            &&& is_label_list(t, labels)
            &&& covers.len() == labels.len()
            &&& forall|k: int| 0 <= k < labels.len() ==> is_cover(t, labels[k], #[trigger] covers[k])
            &&& rules == #[trigger] all_rules(labels, covers, t.variables.len())
        }
}

/// No rule consults variable `i`.
pub open spec fn is_dead(rules: Seq<Entry>, i: int) -> bool {
    forall|k: int| 0 <= k < rules.len() ==> (#[trigger] rules[k]).when[i] == Tri::Any
}

/// The names of the dead variables among the first `k`, in table order.
pub open spec fn dead_names(variables: Seq<Seq<char>>, rules: Seq<Entry>, k: nat) -> Seq<Seq<char>>
    decreases k,
{
    if k == 0 {
        Seq::empty()
    } else if is_dead(rules, k - 1) {
        dead_names(variables, rules, (k - 1) as nat).push(variables[k - 1])
    } else {
        dead_names(variables, rules, (k - 1) as nat)
    }
}

/// What a list of rules holds.
pub open spec fn entries(rules: Seq<Rule>) -> Seq<Entry> {
    rules.map_values(|r: Rule| r@)
}

impl CompressedTable {
    /// Every rule has a value for every variable.
    pub open spec fn wf(self) -> bool {
        forall|k: int| 0 <= k < self.rules@.len() ==> (#[trigger] self.rules@[k]).when@.len() == self.variables@.len()
    }
}

/// The row as a cube over its variables.
fn row_cube(inputs: &Vec<Tri>) -> (c: Cube)
    requires
        inputs.len() <= 16,
    ensures
        c.wf(full_mask(inputs@.len())),
        forall|m: u32| #[trigger] c.matches(m) <==> applies(inputs@, m),
{
    let mut bits: u32 = 0;
    let mut mask: u32 = 0;
    let mut i: usize = 0;
    assert(0u32 & 0u32 == 0) by (bit_vector);
    while i < inputs.len()
        invariant
            i <= inputs.len(),
            inputs.len() <= 16,
            in_space(bits, full_mask(i as nat)),
            in_space(mask, full_mask(i as nat)),
            forall|j: u32| j < i ==> #[trigger] bit_at(mask, j) == (inputs@[j as int] != Tri::Any),
            forall|j: u32| j < i ==> #[trigger] bit_at(bits, j) == (inputs@[j as int] == Tri::True),
        decreases inputs.len() - i,
    {
        let k: u32 = i as u32;
        let ghost bits0 = bits;
        let ghost mask0 = mask;
        proof {
            lemma_space_grows(bits, k);
            lemma_space_grows(mask, k);
            assert forall|j: u32| j < 32 implies #[trigger] bit_at(mask0 | (1u32 << k), j) == (bit_at(mask0, j) || k == j) by {
                lemma_set_bit(mask0, k, j);
            }
            assert forall|j: u32| j < 32 implies #[trigger] bit_at(bits0 | (1u32 << k), j) == (bit_at(bits0, j) || k == j) by {
                lemma_set_bit(bits0, k, j);
            }
        }
        match inputs[i] {
            Tri::True => {
                bits = bits | (1u32 << k);
                mask = mask | (1u32 << k);
            },
            Tri::False => {
                mask = mask | (1u32 << k);
            },
            Tri::Any => {},
        }
        i = i + 1;
    }
    let c = Cube { bits, mask };
    proof {
        let n = inputs.len() as u32;
        assert forall|j: u32| j < n && #[trigger] bit_at(bits, j) implies bit_at(mask, j) by {}
        lemma_bits_within(bits, mask, n);
        assert forall|m: u32| #[trigger] c.matches(m) <==> applies(inputs@, m) by {
            lemma_matches_bits(c, m, n);
            if bits_agree(c, m, n as nat) {
                assert forall|j: u32| #![trigger bit_at(m, j)] j < n implies admits(inputs@[j as int], bit_at(m, j)) by {
                    assert(bit_at(c.mask, j) == (inputs@[j as int] != Tri::Any));
                    assert(bit_at(c.bits, j) == (inputs@[j as int] == Tri::True));
                }
            }
            if applies(inputs@, m) {
                assert forall|j: u32| j < n && #[trigger] bit_at(c.mask, j) implies bit_at(m, j) == bit_at(c.bits, j) by {
                    assert(admits(inputs@[j as int], bit_at(m, j)));
                    assert(bit_at(c.bits, j) == (inputs@[j as int] == Tri::True));
                }
            }
        }
    }
    c
}

/// Some row has label `i`.
spec fn is_used(of_row: Seq<usize>, i: int) -> bool {
    exists|r: int| 0 <= r < of_row.len() && #[trigger] of_row[r] == i
}

/// The labels are distinct, and `of_row` says which one each row has.
spec fn labelled(rows: Seq<Entry>, labels: Seq<String>, of_row: Seq<usize>) -> bool {
    &&& of_row.len() == rows.len()
    &&& forall|r: int| 0 <= r < rows.len() ==> (#[trigger] of_row[r]) < labels.len() && labels[of_row[r] as int]@
        == rows[r].outcome
    &&& forall|i: int, j: int|
        #![trigger labels[i], labels[j]]
        0 <= i < j < labels.len() ==> labels[i]@ != labels[j]@
    &&& forall|i: int| 0 <= i < labels.len() ==> #[trigger] is_used(of_row, i)
}

spec fn row_entries(rows: Seq<Row>) -> Seq<Entry> {
    rows.map_values(|r: Row| r@)
}

/// Numbers the outcomes in order of first appearance.
fn number_labels(rows: &[Row]) -> (r: (Vec<String>, Vec<usize>))
    ensures
        labelled(row_entries(rows@), r.0@, r.1@),
{
    let mut labels: Vec<String> = Vec::new();
    let mut of_row: Vec<usize> = Vec::new();
    let ghost all = row_entries(rows@);
    let mut i: usize = 0;
    while i < rows.len()
        invariant
            i <= rows.len(),
            all == row_entries(rows@),
            labelled(all.take(i as int), labels@, of_row@),
        decreases rows.len() - i,
    {
        let ghost labels0 = labels@;
        let ghost of_row0 = of_row@;
        match position(labels.as_slice(), rows[i].outcome.as_str()) {
            Some(k) => {
                of_row.push(k);
            },
            None => {
                of_row.push(labels.len());
                labels.push(rows[i].outcome.clone());
            },
        }
        proof {
            let pre = all.take(i as int);
            let post = all.take(i + 1);
            assert forall|r: int| 0 <= r < post.len() implies (#[trigger] of_row@[r]) < labels@.len()
                && labels@[of_row@[r] as int]@ == post[r].outcome by {
                if r < i {
                    assert(of_row0[r] == of_row@[r]);
                    assert(pre[r] == post[r]);
                }
            }
            assert forall|a: int, b: int|
                #![trigger labels@[a], labels@[b]]
                0 <= a < b < labels@.len() implies labels@[a]@ != labels@[b]@ by {
                assert(labels0[a] == labels@[a]);
                if b < labels0.len() {
                    assert(labels0[b] == labels@[b]);
                }
            }
            assert forall|k: int| 0 <= k < labels@.len() implies #[trigger] is_used(of_row@, k) by {
                if k < labels0.len() {
                    assert(is_used(of_row0, k));
                    let r = choose|r: int| 0 <= r < of_row0.len() && #[trigger] of_row0[r] == k;
                    assert(of_row@[r] == k);
                } else {
                    assert(of_row@[i as int] == k);
                }
            }
        }
        i = i + 1;
    }
    assert(all.take(i as int) =~= all);
    (labels, of_row)
}

/// What is known of a minterm from the first `r` rows: nothing, or the one label they agree on.
spec fn known_from(rows: Seq<Entry>, of_row: Seq<usize>, known: Option<usize>, r: int, m: u32) -> bool {
    match known {
        None => forall|q: int| 0 <= q < r ==> !applies((#[trigger] rows[q]).when, m),
        Some(k) => {
            &&& exists|q: int| 0 <= q < r && applies((#[trigger] rows[q]).when, m) && of_row[q] == k
            &&& forall|q: int| 0 <= q < r && applies((#[trigger] rows[q]).when, m) ==> of_row[q] == k
        },
    }
}

/// Where two rows contradict each other: the later row, the minterm and the label known before.
struct Contradiction {
    row: usize,
    minterm: u32,
    known: usize,
}

impl Contradiction {
    /// No contradiction comes before it, and `known` is the label of the earlier row.
    spec fn is_first(self, t: TableView, of_row: Seq<usize>) -> bool {
        exists|q: int| #[trigger] first_clash(t, q, self.row as int, self.minterm) && of_row[q] == self.known
    }
}

/// Expands the rows to a label per minterm, up to the first contradiction.
fn observe(rows: &[Row], of_row: &Vec<usize>, n: usize, Ghost(t): Ghost<TableView>, Ghost(labels): Ghost<Seq<String>>) -> (r: Result<
    Vec<Option<usize>>,
    Contradiction,
>)
    requires
        n <= 16,
        t.wf(),
        t.variables.len() == n,
        t.rows == row_entries(rows@),
        labelled(t.rows, labels, of_row@),
    ensures
        r matches Ok(known) ==> {
            &&& known@.len() == full_mask(n as nat) + 1
            &&& forall|m: u32|
                m < known@.len() ==> known_from(t.rows, of_row@, #[trigger] known@[m as int], t.rows.len() as int, m)
            &&& consistent(t)
        },
        r matches Err(c) ==> c.is_first(t, of_row@),
{
    let n32: u32 = n as u32;
    proof {
        lemma_full_mask(n32);
        lemma_space_size(n32);
    }
    let space: u32 = 1u32 << n32;
    let mut known: Vec<Option<usize>> = Vec::new();
    let mut m: u32 = 0;
    while m < space
        invariant
            m <= space,
            known@.len() == m,
            forall|k: int| 0 <= k < m ==> known@[k] is None,
        decreases space - m,
    {
        known.push(None);
        m = m + 1;
    }
    let mut r: usize = 0;
    while r < rows.len()
        invariant
            r <= rows.len(),
            n <= 16,
            n32 == n,
            space == 1u32 << n32,
            space == full_mask(n as nat) + 1,
            t.wf(),
            t.variables.len() == n,
            t.rows == row_entries(rows@),
            labelled(t.rows, labels, of_row@),
            known@.len() == space,
            forall|m: u32| m < space ==> known_from(t.rows, of_row@, #[trigger] known@[m as int], r as int, m),
            forall|q: int, p: int, m: u32| #[trigger] clash(t, q, p, m) ==> p >= r,
        decreases rows.len() - r,
    {
        assert(t.rows[r as int] == rows@[r as int]@);
        let cube = row_cube(&rows[r].inputs);
        let label: usize = of_row[r];
        let mut m: u32 = 0;
        while m < space
            invariant
                m <= space,
                r < rows.len(),
                n <= 16,
                n32 == n,
                space == 1u32 << n32,
                space == full_mask(n as nat) + 1,
                t.variables.len() == n,
                t.rows == row_entries(rows@),
                labelled(t.rows, labels, of_row@),
                label == of_row@[r as int],
                forall|m: u32| #[trigger] cube.matches(m) <==> applies(t.rows[r as int].when, m),
                known@.len() == space,
                forall|k: u32| k < m ==> known_from(t.rows, of_row@, #[trigger] known@[k as int], r + 1, k),
                forall|k: u32| m <= k < space ==> known_from(t.rows, of_row@, #[trigger] known@[k as int], r as int, k),
                forall|q: int, p: int, k: u32| #[trigger] clash(t, q, p, k) ==> p > r || (p == r && k >= m),
            decreases space - m,
        {
            let i: usize = m as usize;
            let ghost known0 = known@;
            assert(known_from(t.rows, of_row@, known0[m as int], r as int, m));
            if cube.covers(m) {
                assert(applies(t.rows[r as int].when, m));
                match known[i] {
                    Some(existing) => {
                        let ghost q = choose|q: int|
                            0 <= q < r && applies((#[trigger] t.rows[q]).when, m) && of_row@[q] == existing;
                        assert(of_row@[q] == existing);
                        if existing != label {
                            proof {
                                lemma_space(m, n32);
                                lemma_full_mask(n32);
                                assert(labels[existing as int]@ != labels[label as int]@) by {
                                    if existing < label {
                                    } else {
                                    }
                                }
                                assert(clash(t, q, r as int, m));
                                assert(first_clash(t, q, r as int, m));
                            }
                            let found = Contradiction { row: r, minterm: m, known: existing };
                            assert(found.is_first(t, of_row@)) by {
                                assert(first_clash(t, q, found.row as int, found.minterm));
                            }
                            return Err(found);
                        }
                    },
                    None => {
                        known.set(i, Some(label));
                    },
                }
                proof {
                    assert(known_from(t.rows, of_row@, known@[m as int], r + 1, m)) by {
                        assert(t.rows[r as int].when == t.rows[r as int].when);
                        assert forall|q: int| 0 <= q < r + 1 && applies((#[trigger] t.rows[q]).when, m) implies of_row@[q] == label by {
                            if q < r {
                                assert(known0[m as int] is Some);
                            }
                        }
                        assert(of_row@[r as int] == label && applies(t.rows[r as int].when, m));
                    }
                }
            } else {
                assert(known_from(t.rows, of_row@, known@[m as int], r + 1, m));
            }
            proof {
                assert forall|q: int, p: int, k: u32| #[trigger] clash(t, q, p, k) implies p > r || (p == r && k >= m + 1) by {
                    if p == r && k == m {
                        assert(applies(t.rows[q].when, m) && q < r);
                        assert(of_row@[q] == label);
                    }
                }
                assert forall|k: u32| k < m + 1 implies known_from(t.rows, of_row@, #[trigger] known@[k as int], r + 1, k) by {
                    if k < m {
                        assert(known0[k as int] == known@[k as int]);
                    }
                }
                assert forall|k: u32| m + 1 <= k < space implies known_from(t.rows, of_row@, #[trigger] known@[k as int], r as int, k) by {
                    assert(known0[k as int] == known@[k as int]);
                }
            }
            m = m + 1;
        }
        proof {
            assert forall|q: int, p: int, k: u32| #[trigger] clash(t, q, p, k) implies p >= r + 1 by {
                lemma_space(k, n32);
                lemma_full_mask(n32);
            }
        }
        r = r + 1;
    }
    Ok(known)
}

/// A minterm's label says which outcome it was observed with.
proof fn lemma_known(t: TableView, labels: Seq<String>, of_row: Seq<usize>, known: Option<usize>, m: u32, idx: int)
    requires
        labelled(t.rows, labels, of_row),
        known_from(t.rows, of_row, known, t.rows.len() as int, m),
        0 <= idx < labels.len(),
        in_space(m, full_mask(t.variables.len())),
    ensures
        (known matches Some(k) && k == idx) <==> observed_as(t, m, labels[idx]@),
        (known is None || (known matches Some(k) && k == idx)) <==> care_set(t, labels[idx]@).contains(m),
{
    let label = labels[idx]@;
    match known {
        None => {},
        Some(k) => {
            let q = choose|q: int| 0 <= q < t.rows.len() && applies((#[trigger] t.rows[q]).when, m) && of_row[q] == k;
            assert(labels[of_row[q] as int]@ == t.rows[q].outcome);
            if k == idx {
                assert(observed_as(t, m, label));
                assert forall|r: int| 0 <= r < t.rows.len() && applies((#[trigger] t.rows[r]).when, m) implies t.rows[r].outcome
                    == label by {
                    assert(of_row[r] == k);
                }
            } else {
                assert(labels[k as int]@ != labels[idx]@) by {
                    if k < idx {
                    } else {
                    }
                }
                assert(t.rows[q].outcome != label);
                if observed_as(t, m, label) {
                    let r = choose|r: int|
                        0 <= r < t.rows.len() && applies((#[trigger] t.rows[r]).when, m) && t.rows[r].outcome == label;
                    assert(of_row[r] == k);
                }
            }
        },
    }
}

/// The cover chosen for the outcome with label `idx`.
fn outcome_cover(
    known: &Vec<Option<usize>>,
    idx: usize,
    n: usize,
    Ghost(t): Ghost<TableView>,
    Ghost(labels): Ghost<Seq<String>>,
    Ghost(of_row): Ghost<Seq<usize>>,
) -> (r: Vec<Cube>)
    requires
        n <= 16,
        t.variables.len() == n,
        idx < labels.len(),
        labelled(t.rows, labels, of_row),
        known@.len() == full_mask(n as nat) + 1,
        forall|m: u32| m < known@.len() ==> known_from(t.rows, of_row, #[trigger] known@[m as int], t.rows.len() as int, m),
    ensures
        is_cover(t, labels[idx as int]@, r@),
{
    let ghost label = labels[idx as int]@;
    let ghost full = full_mask(n as nat);
    let ghost p = |m: u32| observed_as(t, m, label);
    let ghost all = all_minterms(n as nat);
    let n32: u32 = n as u32;
    proof {
        lemma_full_mask(n32);
        lemma_space_size(n32);
        lemma_filter_ends(all, p);
    }
    let space: u32 = 1u32 << n32;
    let mut on: Vec<u32> = Vec::new();
    let mut care: HashSet<u32> = HashSet::new();
    let mut m: u32 = 0;
    while m < space
        invariant
            m <= space,
            n <= 16,
            n32 == n,
            space == 1u32 << n32,
            space == full + 1,
            full == full_mask(n as nat),
            t.variables.len() == n,
            idx < labels.len(),
            label == labels[idx as int]@,
            labelled(t.rows, labels, of_row),
            known@.len() == space,
            forall|m: u32| m < known@.len() ==> known_from(t.rows, of_row, #[trigger] known@[m as int], t.rows.len() as int, m),
            p == |m: u32| observed_as(t, m, label),
            all == all_minterms(n as nat),
            on@ == all.take(m as int).filter(p),
            forall|k: u32| #[trigger] care@.contains(k) <==> k < m && care_set(t, label).contains(k),
        decreases space - m,
    {
        proof {
            lemma_filter_step(all, p, m as int);
            lemma_space(m, n32);
            lemma_full_mask(n32);
            assert(known_from(t.rows, of_row, known@[m as int], t.rows.len() as int, m));
            lemma_known(t, labels, of_row, known@[m as int], m, idx as int);
        }
        match known[m as usize] {
            Some(k) => {
                if k == idx {
                    on.push(m);
                    care.insert(m);
                }
            },
            None => {
                care.insert(m);
            },
        }
        m = m + 1;
    }
    proof {
        lemma_filter_ends(all, p);
        assert forall|k: u32| #[trigger] care@.contains(k) <==> care_set(t, label).contains(k) by {
            lemma_space(k, n32);
            lemma_full_mask(n32);
        }
        assert(care@ =~= care_set(t, label));
    }
    let primes = prime_implicants(&care, n);
    proof {
        lemma_filter_contains(all, p);
        assert(is_prime_list(primes@, care_set(t, label), full));
        assert forall|k: u32| #[trigger] on@.contains(k) implies exists|c: Cube| #[trigger] primes@.contains(c)
            && c.matches(k) by {
            assert(all.contains(k) && p(k));
            let i = choose|i: int| 0 <= i < all.len() && all[i] == k;
            assert(k < space);
            lemma_space(k, n32);
            lemma_full_mask(n32);
            assert(known_from(t.rows, of_row, known@[k as int], t.rows.len() as int, k));
            lemma_known(t, labels, of_row, known@[k as int], k, idx as int);
            let c = lemma_prime_covers(care_set(t, label), full, k);
            assert(primes@.contains(c));
        }
    }
    select_cover(primes.as_slice(), on.as_slice())
}

/// Order of numbered labels: by text.
spec fn label_order() -> spec_fn((String, usize), (String, usize)) -> bool {
    |a: (String, usize), b: (String, usize)| lex_le(a.0@, b.0@)
}

proof fn lemma_label_order()
    ensures
        total_preorder(label_order()),
{
    let le = label_order();
    assert forall|a: (String, usize), b: (String, usize)| #[trigger] le(a, b) || le(b, a) by {
        lemma_lex_total(a.0@, b.0@);
    }
    assert forall|a: (String, usize), b: (String, usize), c: (String, usize)| #[trigger]
        le(a, b) && #[trigger] le(b, c) implies le(a, c) by {
        lemma_lex_transitive(a.0@, b.0@, c.0@);
    }
}

spec fn label_texts(pairs: Seq<(String, usize)>) -> Seq<Seq<char>> {
    pairs.map_values(|p: (String, usize)| p.0@)
}

/// The labels in lexicographic order, each with its number.
fn sorted_labels(labels: &Vec<String>, Ghost(t): Ghost<TableView>, Ghost(of_row): Ghost<Seq<usize>>) -> (r: Vec<
    (String, usize),
>)
    requires
        labelled(t.rows, labels@, of_row),
    ensures
        is_label_list(t, label_texts(r@)),
        forall|k: int|
            0 <= k < r@.len() ==> (#[trigger] r@[k]).1 < labels@.len() && labels@[r@[k].1 as int]@ == r@[k].0@,
{
    let mut pairs: Vec<(String, usize)> = Vec::new();
    let mut i: usize = 0;
    while i < labels.len()
        invariant
            i <= labels.len(),
            pairs@.len() == i,
            forall|k: int| 0 <= k < i ==> (#[trigger] pairs@[k]).1 == k && pairs@[k].0@ == labels@[k]@,
        decreases labels.len() - i,
    {
        pairs.push((labels[i].clone(), i));
        i = i + 1;
    }
    let compare = |a: &(String, usize), b: &(String, usize)| -> (r: bool)
        ensures
            r == label_order()(*a, *b),
        { at_most(a.0.as_str(), b.0.as_str()) };
    let ghost pairs0 = pairs@;
    proof {
        lemma_label_order();
        lemma_stable_sorted(pairs0, label_order());
        lemma_stable_sorted_contains(pairs0, label_order());
        assert(pairs0.no_duplicates());
        lemma_stable_sorted_distinct(pairs0, label_order());
    }
    let r = sort_stable(pairs, &compare, Ghost(label_order()));
    proof {
        let ls = label_texts(r@);
        assert forall|k: int| 0 <= k < r@.len() implies (#[trigger] r@[k]).1 < labels@.len()
            && labels@[r@[k].1 as int]@ == r@[k].0@ by {
            assert(r@.contains(r@[k]));
            assert(pairs0.contains(r@[k]));
        }
        assert forall|a: int, b: int| #![trigger ls[a], ls[b]] 0 <= a < b < ls.len() implies lex_le(ls[a], ls[b])
            && ls[a] != ls[b] by {
            assert(label_order()(r@[a], r@[b]));
            let x = r@[a].1 as int;
            let y = r@[b].1 as int;
            if x == y {
                assert(r@.contains(r@[a]) && r@.contains(r@[b]));
                assert(pairs0.contains(r@[a]) && pairs0.contains(r@[b]));
                assert(r@[a] == pairs0[x] && r@[b] == pairs0[y]);
            }
            if x < y {
                assert(labels@[x]@ != labels@[y]@);
            } else {
                assert(labels@[y]@ != labels@[x]@);
            }
        }
        assert forall|l: Seq<char>| #[trigger] ls.contains(l) <==> exists|q: int|
            0 <= q < t.rows.len() && (#[trigger] t.rows[q]).outcome == l by {
            if ls.contains(l) {
                let k = choose|k: int| 0 <= k < ls.len() && ls[k] == l;
                let x = r@[k].1 as int;
                assert(is_used(of_row, x));
                let q = choose|q: int| 0 <= q < of_row.len() && #[trigger] of_row[q] == x;
                assert(t.rows[q].outcome == l);
            }
            if exists|q: int| 0 <= q < t.rows.len() && (#[trigger] t.rows[q]).outcome == l {
                let q = choose|q: int| 0 <= q < t.rows.len() && (#[trigger] t.rows[q]).outcome == l;
                let x = of_row[q] as int;
                assert(pairs0.contains(pairs0[x]));
                assert(r@.contains(pairs0[x]));
                let k = choose|k: int| 0 <= k < r@.len() && r@[k] == pairs0[x];
                assert(ls[k] == l);
            }
        }
    }
    r
}

fn cube_to_tris(cube: Cube, n: usize) -> (r: Vec<Tri>)
    requires
        n <= 16,
    ensures
        r@ == tris_of(cube, n as nat),
{
    let mut r: Vec<Tri> = Vec::new();
    let mut i: usize = 0;
    while i < n
        invariant
            i <= n,
            n <= 16,
            r@ == tris_of(cube, i as nat),
        decreases n - i,
    {
        let k: u32 = i as u32;
        let t = if (cube.mask >> k) & 1 == 0 {
            Tri::Any
        } else if (cube.bits >> k) & 1 == 1 {
            Tri::True
        } else {
            Tri::False
        };
        proof {
            let mask = cube.mask;
            assert((mask >> k) & 1 == 0 || (mask >> k) & 1 == 1) by (bit_vector);
        }
        r.push(t);
        i = i + 1;
        assert(r@ =~= tris_of(cube, i as nat));
    }
    r
}

/// The names of the variables that no rule consults.
fn dead_variables(variables: &[String], rules: &Vec<Rule>) -> (r: Vec<String>)
    requires
        forall|k: int| 0 <= k < rules@.len() ==> (#[trigger] rules@[k]).when@.len() == variables@.len(),
    ensures
        texts(r@) == dead_names(texts(variables@), entries(rules@), variables@.len()),
{
    let mut r: Vec<String> = Vec::new();
    let ghost es = entries(rules@);
    let ghost names = texts(variables@);
    let mut i: usize = 0;
    assert(texts(r@) =~= Seq::empty());
    while i < variables.len()
        invariant
            i <= variables.len(),
            es == entries(rules@),
            names == texts(variables@),
            forall|k: int| 0 <= k < rules@.len() ==> (#[trigger] rules@[k]).when@.len() == variables@.len(),
            texts(r@) == dead_names(names, es, i as nat),
        decreases variables.len() - i,
    {
        let mut dead = true;
        let mut k: usize = 0;
        while k < rules.len()
            invariant
                k <= rules.len(),
                i < variables.len(),
                es == entries(rules@),
                forall|k: int| 0 <= k < rules@.len() ==> (#[trigger] rules@[k]).when@.len() == variables@.len(),
                dead <==> forall|j: int| 0 <= j < k ==> (#[trigger] es[j]).when[i as int] == Tri::Any,
            decreases rules.len() - k,
        {
            assert(es[k as int].when == rules@[k as int].when@);
            if rules[k].when[i] != Tri::Any {
                dead = false;
            }
            k = k + 1;
        }
        assert(dead <==> is_dead(es, i as int));
        if dead {
            let ghost r0 = r@;
            r.push(variables[i].clone());
            assert(texts(r@) =~= texts(r0).push(names[i as int]));
        }
        i = i + 1;
    }
    r
}

fn assignment(variables: &[String], m: u32) -> (r: Vec<(String, bool)>)
    requires
        variables@.len() <= 16,
    ensures
        is_assignment(r@, texts(variables@), m),
{
    let mut r: Vec<(String, bool)> = Vec::new();
    let mut i: usize = 0;
    while i < variables.len()
        invariant
            i <= variables.len(),
            variables@.len() <= 16,
            r@.len() == i,
            forall|k: int|
                0 <= k < i ==> (#[trigger] r@[k]).0@ == texts(variables@)[k] && r@[k].1 == bit_at(m, k as u32),
        decreases variables.len() - i,
    {
        let k: u32 = i as u32;
        r.push((variables[i].clone(), (m >> k) & 1 == 1));
        i = i + 1;
    }
    r
}

/// One value per variable, read from the minterm's bits.
pub open spec fn is_assignment(pairs: Seq<(String, bool)>, variables: Seq<Seq<char>>, m: u32) -> bool {
    &&& pairs.len() == variables.len()
    &&& forall|k: int|
        0 <= k < pairs.len() ==> (#[trigger] pairs[k]).0@ == variables[k] && pairs[k].1 == bit_at(m, k as u32)
}

/// Appends the rules of one outcome.
fn push_rules(rules: &mut Vec<Rule>, label: &String, cover: &Vec<Cube>, n: usize)
    requires
        n <= 16,
    ensures
        entries(final(rules)@) == entries(old(rules)@) + rules_of(label@, cover@, n as nat),
{
    let ghost before = entries(rules@);
    let ghost new = rules_of(label@, cover@, n as nat);
    let mut i: usize = 0;
    assert(entries(rules@) =~= before + new.take(0));
    while i < cover.len()
        invariant
            i <= cover.len(),
            n <= 16,
            new == rules_of(label@, cover@, n as nat),
            entries(rules@) == before + new.take(i as int),
        decreases cover.len() - i,
    {
        let ghost rules0 = rules@;
        let rule = Rule { when: cube_to_tris(cover[i], n), outcome: label.clone() };
        rules.push(rule);
        assert(rule@ == new[i as int]);
        assert(entries(rules@) =~= entries(rules0).push(rule@));
        i = i + 1;
        assert(new.take(i as int) =~= new.take(i - 1).push(new[i - 1]));
        assert(entries(rules@) =~= before + new.take(i as int));
    }
    assert(new.take(i as int) =~= new);
}

/// The result of compressing a table whose rows do not contradict each other.
pub open spec fn is_compression(t: TableView, c: CompressedTable) -> bool {
    &&& texts(c.variables@) == t.variables
    &&& compressed(t, entries(c.rules@))
    &&& texts(c.dead_variables@) == dead_names(t.variables, entries(c.rules@), t.variables.len())
}

/// What compressing a table comes to: a compression where the table has rows,
/// not too many variables and no contradiction, and else the reason.
pub open spec fn is_answer(t: TableView, r: Result<CompressedTable, Error>) -> bool {
    &&& r is Ok <==> t.rows.len() > 0 && t.variables.len() <= MAX_VARIABLES && consistent(t)
    &&& r matches Ok(c) ==> is_compression(t, c) && c.wf()
    &&& r matches Err(e) ==> match e {
        Error::EmptyTable => t.rows.len() == 0,
        Error::TooManyVariables { count, max } => {
            &&& t.rows.len() > 0
            &&& count == t.variables.len()
            &&& count > MAX_VARIABLES
            &&& max == MAX_VARIABLES
        },
        Error::ArityMismatch { .. } => false,
        Error::Conflict { assignment, outcomes } => {
            &&& t.rows.len() > 0
            &&& t.variables.len() <= MAX_VARIABLES
            &&& exists|q: int, r: int, m: u32|
                {
                    &&& #[trigger] first_clash(t, q, r, m)
                    &&& is_assignment(assignment@, t.variables, m)
                    &&& outcomes.0@ == t.rows[q].outcome
                    &&& outcomes.1@ == t.rows[r].outcome
                }
        },
    }
}

/// Compress a decision table to its minimal rule set.
///
/// Per outcome class, the ON-set is that class's observed minterms and the
/// don't-care set is everything never observed; Quine-McCluskey yields the
/// prime implicants and an essential-first cover selects the rules.
pub fn compress(table: &DecisionTable) -> (r: Result<CompressedTable, Error>)
    requires
        table@.wf(),
    ensures
        is_answer(table@, r),
{
    let variables = table.variables();
    let rows = table.rows();
    let n: usize = variables.len();
    let ghost t = table@;
    if rows.len() == 0 {
        return Err(Error::EmptyTable);
    }
    if n > MAX_VARIABLES {
        return Err(Error::TooManyVariables { count: n, max: MAX_VARIABLES });
    }
    let (labels, of_row) = number_labels(rows);
    assert(t.rows =~= row_entries(rows@));
    let known = match observe(rows, &of_row, n, Ghost(t), Ghost(labels@)) {
        Ok(known) => known,
        Err(found) => {
            let ghost q = choose|q: int| #[trigger]
                first_clash(t, q, found.row as int, found.minterm) && of_row@[q] == found.known;
            assert(labels@[of_row@[q] as int]@ == t.rows[q].outcome);
            assert(t.rows[found.row as int] == rows@[found.row as int]@);
            let pairs = assignment(variables, found.minterm);
            let outcomes = (labels[found.known].clone(), rows[found.row].outcome.clone());
            assert(first_clash(t, q, found.row as int, found.minterm));
            assert(clash(t, q, found.row as int, found.minterm));
            return Err(Error::Conflict { assignment: pairs, outcomes });
        },
    };
    let order = sorted_labels(&labels, Ghost(t), Ghost(of_row@));
    let ghost names = label_texts(order@);
    let ghost mut covers: Seq<Seq<Cube>> = Seq::empty();
    let mut rules: Vec<Rule> = Vec::new();
    let mut i: usize = 0;
    assert(entries(rules@) =~= all_rules(names.take(0), covers, n as nat));
    while i < order.len()
        invariant
            i <= order.len(),
            n <= 16,
            t.variables.len() == n,
            names == label_texts(order@),
            labelled(t.rows, labels@, of_row@),
            known@.len() == full_mask(n as nat) + 1,
            forall|m: u32|
                m < known@.len() ==> known_from(t.rows, of_row@, #[trigger] known@[m as int], t.rows.len() as int, m),
            forall|k: int|
                0 <= k < order@.len() ==> (#[trigger] order@[k]).1 < labels@.len() && labels@[order@[k].1 as int]@
                    == order@[k].0@,
            covers.len() == i,
            forall|k: int| 0 <= k < i ==> is_cover(t, names[k], #[trigger] covers[k]),
            entries(rules@) == all_rules(names.take(i as int), covers, n as nat),
        decreases order.len() - i,
    {
        let cover = outcome_cover(&known, order[i].1, n, Ghost(t), Ghost(labels@), Ghost(of_row@));
        push_rules(&mut rules, &order[i].0, &cover, n);
        proof {
            let covers0 = covers;
            covers = covers.push(cover@);
            assert(names.take(i + 1).drop_last() =~= names.take(i as int));
            assert(covers.drop_last() =~= covers0);
        }
        i = i + 1;
    }
    proof {
        assert(names.take(i as int) =~= names);
        lemma_rule_lengths(names, covers, n as nat);
        assert forall|k: int| 0 <= k < rules@.len() implies (#[trigger] rules@[k]).when@.len() == n by {
            assert(entries(rules@)[k].when.len() == n);
        }
    }
    let dead = dead_variables(variables, &rules);
    let names = copy_texts(variables);
    Ok(CompressedTable { variables: names, rules, dead_variables: dead })
}

proof fn lemma_rule_lengths(labels: Seq<Seq<char>>, covers: Seq<Seq<Cube>>, n: nat)
    requires
        labels.len() == covers.len(),
    ensures
        forall|k: int|
            0 <= k < all_rules(labels, covers, n).len() ==> (#[trigger] all_rules(labels, covers, n)[k]).when.len() == n,
    decreases labels.len(),
{
    if labels.len() > 0 {
        lemma_rule_lengths(labels.drop_last(), covers.drop_last(), n);
        let front = all_rules(labels.drop_last(), covers.drop_last(), n);
        let all = all_rules(labels, covers, n);
        assert forall|k: int| 0 <= k < all.len() implies (#[trigger] all[k]).when.len() == n by {
            if k < front.len() {
                assert(all[k] == front[k]);
            }
        }
    }
}

} // verus!
