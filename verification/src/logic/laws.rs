//! What compression promises of the observed behaviour.

use vstd::prelude::*;

use crate::logic::bits::{bit_at, bits_agree, lemma_matches_bits, lemma_set_bit, lemma_space_grows};
use crate::logic::compress::{
    admits, all_minterms, all_rules, applies, care_set, clash, compressed, consistent, entries, is_answer, is_cover,
    is_dead, is_label_list, is_prime_list, observed_as, on_set, rules_of, tris_of,
};
use crate::logic::qm::{
    covers_all, cube_le, cube_order, distinct_minterms, full_mask, greedy_cover, implicant, in_space,
    lemma_distinct_minterms, lemma_greedy_cover, lemma_prime_covers, Cube,
};
use crate::logic::table::{CompressedTable, Entry, Error, TableView, Tri};
use crate::order::{lemma_ascending_unique, lemma_stable_sorted_contains, stable_sorted};
use crate::seqs::lemma_filter_contains;
use crate::text::{lemma_lex_total, lemma_lex_transitive, lex_le, texts};

verus! {

/// A rule written out from a cube applies to what the cube matches.
proof fn lemma_tris_apply(c: Cube, n: u32, m: u32)
    requires
        n <= 16,
        c.wf(full_mask(n as nat)),
    ensures
        applies(tris_of(c, n as nat), m) <==> c.matches(m),
{
    let tris = tris_of(c, n as nat);
    lemma_matches_bits(c, m, n);
    if bits_agree(c, m, n as nat) {
        assert forall|i: u32| #![trigger bit_at(m, i)] i < tris.len() implies admits(tris[i as int], bit_at(m, i)) by {
            assert(bit_at(c.mask, i) ==> bit_at(m, i) == bit_at(c.bits, i));
        }
    }
    if applies(tris, m) {
        assert forall|i: u32| i < n && #[trigger] bit_at(c.mask, i) implies bit_at(m, i) == bit_at(c.bits, i) by {
            assert(admits(tris[i as int], bit_at(m, i)));
        }
    }
}

/// The rule for cube `j` of outcome `l`.
spec fn rule_at(labels: Seq<Seq<char>>, covers: Seq<Seq<Cube>>, n: nat, l: int, j: int) -> Entry {
    Entry { when: tris_of(covers[l][j], n), outcome: labels[l] }
}

proof fn lemma_rules_member(labels: Seq<Seq<char>>, covers: Seq<Seq<Cube>>, n: nat, e: Entry)
    requires
        labels.len() == covers.len(),
    ensures
        all_rules(labels, covers, n).contains(e) <==> exists|l: int, j: int|
            0 <= l < labels.len() && 0 <= j < covers[l].len() && e == #[trigger] rule_at(labels, covers, n, l, j),
    decreases labels.len(),
{
    let all = all_rules(labels, covers, n);
    if labels.len() > 0 {
        let ls = labels.drop_last();
        let cs = covers.drop_last();
        let front = all_rules(ls, cs, n);
        let back = rules_of(labels.last(), covers.last(), n);
        let k = labels.len() - 1;
        lemma_rules_member(ls, cs, n, e);
        if all.contains(e) {
            let i = choose|i: int| 0 <= i < all.len() && all[i] == e;
            if i < front.len() {
                assert(front[i] == e);
                let (l, j) = choose|l: int, j: int|
                    0 <= l < ls.len() && 0 <= j < cs[l].len() && e == #[trigger] rule_at(ls, cs, n, l, j);
                assert(e == rule_at(labels, covers, n, l, j));
            } else {
                let j = i - front.len();
                assert(e == back[j]);
                assert(e == rule_at(labels, covers, n, k, j));
            }
        }
        if exists|l: int, j: int|
            0 <= l < labels.len() && 0 <= j < covers[l].len() && e == #[trigger] rule_at(labels, covers, n, l, j) {
            let (l, j) = choose|l: int, j: int|
                0 <= l < labels.len() && 0 <= j < covers[l].len() && e == #[trigger] rule_at(labels, covers, n, l, j);
            if l < k {
                assert(e == rule_at(ls, cs, n, l, j));
                let i = choose|i: int| 0 <= i < front.len() && front[i] == e;
                assert(all[i] == e);
            } else {
                assert(all[front.len() + j] == e);
            }
        }
    }
}

/// The chosen cover consists of implicants of the outcome's care set and misses no observed minterm.
proof fn lemma_cover(t: TableView, outcome: Seq<char>, cover: Seq<Cube>)
    requires
        t.variables.len() <= 16,
        consistent(t),
        is_cover(t, outcome, cover),
    ensures
        covers_all(cover, on_set(t, outcome)),
        forall|c: Cube| #[trigger]
            cover.contains(c) ==> implicant(c, care_set(t, outcome), full_mask(t.variables.len())),
{
    let full = full_mask(t.variables.len());
    let care = care_set(t, outcome);
    let on = on_set(t, outcome);
    let primes = choose|primes: Seq<Cube>|
        {
            &&& #[trigger] is_prime_list(primes, care, full)
            &&& cover == stable_sorted(greedy_cover(primes, distinct_minterms(on)), cube_order())
        };
    lemma_distinct_minterms(on);
    lemma_filter_contains(all_minterms(t.variables.len()), |m: u32| observed_as(t, m, outcome));
    assert forall|m: u32| #[trigger] distinct_minterms(on).contains(m) implies exists|c: Cube| #[trigger]
        primes.contains(c) && c.matches(m) by {
        assert(on.contains(m));
        assert(all_minterms(t.variables.len()).contains(m));
        lemma_minterm_space(t.variables.len(), m);
        let q = choose|q: int|
            0 <= q < t.rows.len() && applies((#[trigger] t.rows[q]).when, m) && t.rows[q].outcome == outcome;
        assert forall|r: int| 0 <= r < t.rows.len() && applies((#[trigger] t.rows[r]).when, m) implies t.rows[r].outcome
            == outcome by {
            assert(!clash(t, q, r, m));
            assert(!clash(t, r, q, m));
        }
        let c = lemma_prime_covers(care, full, m);
        assert(primes.contains(c));
    }
    let taken = greedy_cover(primes, distinct_minterms(on));
    lemma_greedy_cover(primes, distinct_minterms(on));
    lemma_stable_sorted_contains(taken, cube_order());
    assert forall|m: u32| #[trigger] on.contains(m) implies exists|c: Cube| #[trigger] cover.contains(c) && c.matches(
        m,
    ) by {
        assert(distinct_minterms(on).contains(m));
        let c = choose|c: Cube| #[trigger] taken.contains(c) && c.matches(m);
        assert(cover.contains(c));
    }
    assert forall|c: Cube| #[trigger] cover.contains(c) implies implicant(c, care, full) by {
        assert(taken.contains(c));
        assert(primes.contains(c));
    }
}

proof fn lemma_minterm_space(n: nat, m: u32)
    requires
        n <= 16,
    ensures
        all_minterms(n).contains(m) <==> in_space(m, full_mask(n)),
{
    crate::logic::bits::lemma_space(m, n as u32);
    crate::logic::bits::lemma_full_mask(n as u32);
    if in_space(m, full_mask(n)) {
        assert(all_minterms(n)[m as int] == m);
    }
}

/// Every observed minterm is matched by a rule of its own outcome and by no
/// rule of any other outcome.
pub proof fn law_faithful(t: TableView, rules: Seq<Entry>, r: int, m: u32)
    requires
        t.wf(),
        t.variables.len() <= 16,
        consistent(t),
        compressed(t, rules),
        0 <= r < t.rows.len(),
        in_space(m, full_mask(t.variables.len())),
        applies(t.rows[r].when, m),
    ensures
        exists|k: int|
            0 <= k < rules.len() && (#[trigger] rules[k]).outcome == t.rows[r].outcome && applies(rules[k].when, m),
        forall|k: int|
            0 <= k < rules.len() && (#[trigger] rules[k]).outcome != t.rows[r].outcome ==> !applies(rules[k].when, m),
{
    let n = t.variables.len();
    let full = full_mask(n);
    let outcome = t.rows[r].outcome;
    let (labels, covers) = choose|labels: Seq<Seq<char>>, covers: Seq<Seq<Cube>>|
        {
            &&& is_label_list(t, labels)
            &&& covers.len() == labels.len()
            &&& forall|k: int| 0 <= k < labels.len() ==> is_cover(t, labels[k], #[trigger] covers[k])
            &&& rules == #[trigger] all_rules(labels, covers, n)
        };
    assert(labels.contains(outcome));
    let l = choose|l: int| 0 <= l < labels.len() && labels[l] == outcome;
    lemma_cover(t, outcome, covers[l]);
    assert(on_set(t, outcome).contains(m)) by {
        lemma_filter_contains(all_minterms(n), |m: u32| observed_as(t, m, outcome));
        lemma_minterm_space(n, m);
        assert(observed_as(t, m, outcome));
    }
    let c = choose|c: Cube| #[trigger] covers[l].contains(c) && c.matches(m);
    let j = choose|j: int| 0 <= j < covers[l].len() && covers[l][j] == c;
    let e = rule_at(labels, covers, n, l, j);
    lemma_rules_member(labels, covers, n, e);
    assert(rules.contains(e));
    let k = choose|k: int| 0 <= k < rules.len() && rules[k] == e;
    lemma_tris_apply(c, n as u32, m);
    assert(rules[k].outcome == outcome && applies(rules[k].when, m));
    assert forall|k: int| 0 <= k < rules.len() && (#[trigger] rules[k]).outcome != outcome implies !applies(
        rules[k].when,
        m,
    ) by {
        let f = rules[k];
        lemma_rules_member(labels, covers, n, f);
        assert(rules.contains(f));
        let (x, y) = choose|x: int, y: int|
            0 <= x < labels.len() && 0 <= y < covers[x].len() && f == #[trigger] rule_at(labels, covers, n, x, y);
        lemma_cover(t, labels[x], covers[x]);
        let d = covers[x][y];
        assert(covers[x].contains(d));
        lemma_tris_apply(d, n as u32, m);
        if d.matches(m) {
            assert(care_set(t, labels[x]).contains(m));
            assert(t.rows[r].outcome == labels[x]);
        }
    }
}

/// A dead variable never influences an observed outcome: two observed
/// minterms that differ in nothing else have the same outcome.
pub proof fn law_dead_variable(t: TableView, rules: Seq<Entry>, i: u32, q: int, a: u32, r: int, b: u32)
    requires
        t.wf(),
        t.variables.len() <= 16,
        consistent(t),
        compressed(t, rules),
        i < t.variables.len(),
        is_dead(rules, i as int),
        0 <= q < t.rows.len(),
        0 <= r < t.rows.len(),
        in_space(a, full_mask(t.variables.len())),
        in_space(b, full_mask(t.variables.len())),
        applies(t.rows[q].when, a),
        applies(t.rows[r].when, b),
        forall|j: u32| j < t.variables.len() && j != i ==> #[trigger] bit_at(a, j) == bit_at(b, j),
    ensures
        t.rows[q].outcome == t.rows[r].outcome,
{
    law_faithful(t, rules, q, a);
    law_faithful(t, rules, r, b);
    let k = choose|k: int|
        0 <= k < rules.len() && (#[trigger] rules[k]).outcome == t.rows[q].outcome && applies(rules[k].when, a);
    lemma_rules_wide(t, rules, k);
    assert forall|j: u32| #![trigger bit_at(b, j)] j < rules[k].when.len() implies admits(
        rules[k].when[j as int],
        bit_at(b, j),
    ) by {
        assert(admits(rules[k].when[j as int], bit_at(a, j)));
    }
}

pub proof fn lemma_rules_wide(t: TableView, rules: Seq<Entry>, k: int)
    requires
        compressed(t, rules),
        0 <= k < rules.len(),
    ensures
        rules[k].when.len() == t.variables.len(),
{
    let n = t.variables.len();
    let (labels, covers) = choose|labels: Seq<Seq<char>>, covers: Seq<Seq<Cube>>|
        {
            &&& is_label_list(t, labels)
            &&& covers.len() == labels.len()
            &&& forall|k: int| 0 <= k < labels.len() ==> is_cover(t, labels[k], #[trigger] covers[k])
            &&& rules == #[trigger] all_rules(labels, covers, n)
        };
    lemma_rules_member(labels, covers, n, rules[k]);
    assert(rules.contains(rules[k]));
}

proof fn lemma_primes_unique(a: Seq<Cube>, b: Seq<Cube>, care: Set<u32>, full: u32)
    requires
        is_prime_list(a, care, full),
        is_prime_list(b, care, full),
    ensures
        a == b,
{
    let lt = |x: Cube, y: Cube| cube_le(x, y) && x != y;
    assert forall|x: Cube| #[trigger] a.contains(x) <==> b.contains(x) by {}
    lemma_ascending_unique(a, b, lt);
}

proof fn lemma_labels_unique(t: TableView, a: Seq<Seq<char>>, b: Seq<Seq<char>>)
    requires
        is_label_list(t, a),
        is_label_list(t, b),
    ensures
        a == b,
{
    let lt = |x: Seq<char>, y: Seq<char>| lex_le(x, y) && x != y;
    assert forall|x: Seq<char>, y: Seq<char>| #[trigger] lt(x, y) implies !lt(y, x) by {
        lemma_lex_total(x, y);
    }
    assert forall|x: Seq<char>, y: Seq<char>, z: Seq<char>| #[trigger] lt(x, y) && #[trigger] lt(y, z) implies lt(
        x,
        z,
    ) by {
        lemma_lex_transitive(x, y, z);
        lemma_lex_total(x, y);
    }
    assert forall|x: Seq<char>| #[trigger] a.contains(x) <==> b.contains(x) by {}
    lemma_ascending_unique(a, b, lt);
}

/// Compression is deterministic: a table has one list of minimized rules.
pub proof fn law_deterministic(t: TableView, a: Seq<Entry>, b: Seq<Entry>)
    requires
        compressed(t, a),
        compressed(t, b),
    ensures
        a == b,
{
    let n = t.variables.len();
    let full = full_mask(n);
    let (la, ca) = choose|labels: Seq<Seq<char>>, covers: Seq<Seq<Cube>>|
        {
            &&& is_label_list(t, labels)
            &&& covers.len() == labels.len()
            &&& forall|k: int| 0 <= k < labels.len() ==> is_cover(t, labels[k], #[trigger] covers[k])
            &&& a == #[trigger] all_rules(labels, covers, n)
        };
    let (lb, cb) = choose|labels: Seq<Seq<char>>, covers: Seq<Seq<Cube>>|
        {
            &&& is_label_list(t, labels)
            &&& covers.len() == labels.len()
            &&& forall|k: int| 0 <= k < labels.len() ==> is_cover(t, labels[k], #[trigger] covers[k])
            &&& b == #[trigger] all_rules(labels, covers, n)
        };
    lemma_labels_unique(t, la, lb);
    assert forall|k: int| 0 <= k < ca.len() implies ca[k] == cb[k] by {
        assert(is_cover(t, la[k], ca[k]) && is_cover(t, lb[k], cb[k]));
        let care = care_set(t, la[k]);
        let on = distinct_minterms(on_set(t, la[k]));
        let pa = choose|primes: Seq<Cube>|
            {
                &&& #[trigger] is_prime_list(primes, care, full)
                &&& ca[k] == stable_sorted(greedy_cover(primes, on), cube_order())
            };
        let pb = choose|primes: Seq<Cube>|
            {
                &&& #[trigger] is_prime_list(primes, care, full)
                &&& cb[k] == stable_sorted(greedy_cover(primes, on), cube_order())
            };
        lemma_primes_unique(pa, pb, care, full);
    }
    assert(ca =~= cb);
}

/// Two tables observe the same: every minterm has the same outcomes in both.
pub open spec fn same_observations(t: TableView, u: TableView) -> bool {
    &&& t.variables == u.variables
    &&& forall|m: u32, o: Seq<char>|
        in_space(m, full_mask(t.variables.len())) ==> (#[trigger] observed_as(t, m, o) <==> observed_as(u, m, o))
}

/// A minterm that the first values of a row admit.
spec fn row_minterm(values: Seq<Tri>, n: nat) -> u32
    decreases n,
{
    if n == 0 {
        0
    } else {
        let before = row_minterm(values, (n - 1) as nat);
        if values[n - 1] == Tri::True {
            before | (1u32 << ((n - 1) as u32))
        } else {
            before
        }
    }
}

proof fn lemma_row_minterm(values: Seq<Tri>, n: nat)
    requires
        n <= 16,
        n <= values.len(),
    ensures
        in_space(row_minterm(values, n), full_mask(n)),
        forall|i: u32| i < n ==> #[trigger] bit_at(row_minterm(values, n), i) == (values[i as int] == Tri::True),
    decreases n,
{
    if n == 0 {
        assert(0u32 & 0u32 == 0u32) by (bit_vector);
    } else {
        let k = (n - 1) as nat;
        let before = row_minterm(values, k);
        lemma_row_minterm(values, k);
        lemma_space_grows(before, k as u32);
        assert forall|i: u32| i < n implies #[trigger] bit_at(row_minterm(values, n), i) == (values[i as int]
            == Tri::True) by {
            lemma_set_bit(before, k as u32, i);
        }
    }
}

/// Every row is observed at some minterm.
proof fn lemma_row_observed(t: TableView, r: int) -> (m: u32)
    requires
        t.wf(),
        t.variables.len() <= 16,
        0 <= r < t.rows.len(),
    ensures
        in_space(m, full_mask(t.variables.len())),
        applies(t.rows[r].when, m),
        observed_as(t, m, t.rows[r].outcome),
{
    let values = t.rows[r].when;
    let m = row_minterm(values, values.len());
    lemma_row_minterm(values, values.len());
    assert forall|i: u32| #![trigger bit_at(m, i)] i < values.len() implies admits(values[i as int], bit_at(m, i)) by {}
    m
}

proof fn lemma_filter_agrees<A>(s: Seq<A>, p: spec_fn(A) -> bool, q: spec_fn(A) -> bool)
    requires
        forall|x: A| #[trigger] s.contains(x) ==> p(x) == q(x),
    ensures
        s.filter(p) == s.filter(q),
    decreases s.len(),
{
    reveal(Seq::filter);
    if s.len() > 0 {
        let front = s.drop_last();
        assert forall|x: A| #[trigger] front.contains(x) implies p(x) == q(x) by {
            let i = choose|i: int| 0 <= i < front.len() && front[i] == x;
            assert(s[i] == x);
            assert(s.contains(x));
        }
        lemma_filter_agrees(front, p, q);
        assert(s[s.len() - 1] == s.last());
        assert(s.contains(s.last()));
    }
}

proof fn lemma_same_labels(t: TableView, u: TableView, l: Seq<char>)
    requires
        t.wf(),
        t.variables.len() <= 16,
        same_observations(t, u),
        exists|r: int| 0 <= r < t.rows.len() && (#[trigger] t.rows[r]).outcome == l,
    ensures
        exists|r: int| 0 <= r < u.rows.len() && (#[trigger] u.rows[r]).outcome == l,
{
    let r = choose|r: int| 0 <= r < t.rows.len() && (#[trigger] t.rows[r]).outcome == l;
    let m = lemma_row_observed(t, r);
    assert(observed_as(u, m, l));
    let q = choose|q: int| 0 <= q < u.rows.len() && applies((#[trigger] u.rows[q]).when, m) && u.rows[q].outcome == l;
    assert(u.rows[q].outcome == l);
}

proof fn lemma_same_sets(t: TableView, u: TableView, l: Seq<char>)
    requires
        t.variables.len() <= 16,
        same_observations(t, u),
    ensures
        care_set(t, l) == care_set(u, l),
        on_set(t, l) == on_set(u, l),
{
    let n = t.variables.len();
    assert forall|m: u32| #[trigger] care_set(t, l).contains(m) <==> care_set(u, l).contains(m) by {
        if in_space(m, full_mask(n)) {
            lemma_care_by_outcomes(t, l, m);
            lemma_care_by_outcomes(u, l, m);
            if care_set(t, l).contains(m) {
                assert forall|o: Seq<char>| #[trigger] observed_as(u, m, o) implies o == l by {
                    assert(observed_as(t, m, o));
                }
            }
            if care_set(u, l).contains(m) {
                assert forall|o: Seq<char>| #[trigger] observed_as(t, m, o) implies o == l by {
                    assert(observed_as(u, m, o));
                }
            }
        }
    }
    assert(care_set(t, l) =~= care_set(u, l));
    let p = |m: u32| observed_as(t, m, l);
    let q = |m: u32| observed_as(u, m, l);
    assert forall|m: u32| #[trigger] all_minterms(n).contains(m) implies p(m) == q(m) by {
        lemma_minterm_space(n, m);
    }
    lemma_filter_agrees(all_minterms(n), p, q);
}

proof fn lemma_care_by_outcomes(t: TableView, l: Seq<char>, m: u32)
    requires
        in_space(m, full_mask(t.variables.len())),
    ensures
        care_set(t, l).contains(m) <==> forall|o: Seq<char>| #[trigger] observed_as(t, m, o) ==> o == l,
{
    if care_set(t, l).contains(m) {
        assert forall|o: Seq<char>| #[trigger] observed_as(t, m, o) implies o == l by {
            let r = choose|r: int|
                0 <= r < t.rows.len() && applies((#[trigger] t.rows[r]).when, m) && t.rows[r].outcome == o;
            assert(t.rows[r].outcome == l);
        }
    }
    if forall|o: Seq<char>| #[trigger] observed_as(t, m, o) ==> o == l {
        assert forall|r: int| 0 <= r < t.rows.len() && applies((#[trigger] t.rows[r]).when, m) implies t.rows[r].outcome
            == l by {
            assert(observed_as(t, m, t.rows[r].outcome));
        }
    }
}

proof fn lemma_same_consistent(t: TableView, u: TableView)
    requires
        same_observations(t, u),
        consistent(t),
    ensures
        consistent(u),
{
    assert forall|q: int, r: int, m: u32| !#[trigger] clash(u, q, r, m) by {
        if clash(u, q, r, m) {
            assert(observed_as(u, m, u.rows[q].outcome) && observed_as(u, m, u.rows[r].outcome));
            assert(observed_as(t, m, u.rows[q].outcome) && observed_as(t, m, u.rows[r].outcome));
            let a = choose|a: int|
                0 <= a < t.rows.len() && applies((#[trigger] t.rows[a]).when, m) && t.rows[a].outcome
                    == u.rows[q].outcome;
            let b = choose|b: int|
                0 <= b < t.rows.len() && applies((#[trigger] t.rows[b]).when, m) && t.rows[b].outcome
                    == u.rows[r].outcome;
            assert(clash(t, a, b, m) || clash(t, b, a, m));
        }
    }
}

proof fn lemma_same_compressed(t: TableView, u: TableView, rules: Seq<Entry>)
    requires
        t.wf(),
        u.wf(),
        t.variables.len() <= 16,
        same_observations(t, u),
        compressed(t, rules),
    ensures
        compressed(u, rules),
{
    let n = t.variables.len();
    let (labels, covers) = choose|labels: Seq<Seq<char>>, covers: Seq<Seq<Cube>>|
        {
            &&& is_label_list(t, labels)
            &&& covers.len() == labels.len()
            &&& forall|k: int| 0 <= k < labels.len() ==> is_cover(t, labels[k], #[trigger] covers[k])
            &&& rules == #[trigger] all_rules(labels, covers, n)
        };
    assert forall|l: Seq<char>| #[trigger] labels.contains(l) <==> exists|r: int|
        0 <= r < u.rows.len() && (#[trigger] u.rows[r]).outcome == l by {
        if labels.contains(l) {
            lemma_same_labels(t, u, l);
        }
        if exists|r: int| 0 <= r < u.rows.len() && (#[trigger] u.rows[r]).outcome == l {
            lemma_same_labels(u, t, l);
        }
    }
    assert(is_label_list(u, labels));
    assert forall|k: int| 0 <= k < labels.len() implies is_cover(u, labels[k], #[trigger] covers[k]) by {
        assert(is_cover(t, labels[k], covers[k]));
        lemma_same_sets(t, u, labels[k]);
    }
    assert(rules == all_rules(labels, covers, u.variables.len()));
}

/// Compression depends on the observations alone: tables that observe the same
/// are compressed to the same rules, however their rows are ordered, repeated
/// or split.
pub proof fn law_observations_decide(
    t: TableView,
    u: TableView,
    c: CompressedTable,
    r: Result<CompressedTable, Error>,
)
    requires
        t.wf(),
        u.wf(),
        same_observations(t, u),
        is_answer(t, Ok(c)),
        is_answer(u, r),
    ensures
        r matches Ok(d) && texts(d.variables@) == texts(c.variables@) && entries(d.rules@) == entries(c.rules@)
            && texts(d.dead_variables@) == texts(c.dead_variables@),
{
    let first = lemma_row_observed(t, 0);
    assert(observed_as(u, first, t.rows[0].outcome));
    lemma_same_consistent(t, u);
    let d = r->Ok_0;
    lemma_same_compressed(t, u, entries(c.rules@));
    law_deterministic(u, entries(c.rules@), entries(d.rules@));
}

} // verus!
