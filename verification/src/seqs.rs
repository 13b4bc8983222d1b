//! Facts about sequences that many modules use.

use vstd::prelude::*;

verus! {

/// Filtering a prefix that is longer by one element.
pub proof fn lemma_filter_step<A>(s: Seq<A>, p: spec_fn(A) -> bool, i: int)
    requires
        0 <= i < s.len(),
    ensures
        s.take(i + 1).filter(p) == if p(s[i]) {
            s.take(i).filter(p).push(s[i])
        } else {
            s.take(i).filter(p)
        },
{
    reveal(Seq::filter);
    assert(s.take(i + 1).drop_last() =~= s.take(i));
}

/// Nothing is left of an empty prefix, and the whole sequence is its own prefix.
pub proof fn lemma_filter_ends<A>(s: Seq<A>, p: spec_fn(A) -> bool)
    ensures
        s.take(0).filter(p) == Seq::<A>::empty(),
        s.take(s.len() as int).filter(p) == s.filter(p),
{
    reveal(Seq::filter);
    assert(s.take(s.len() as int) =~= s);
}

/// Filtering keeps exactly the elements that pass.
pub proof fn lemma_filter_contains<A>(s: Seq<A>, p: spec_fn(A) -> bool)
    ensures
        forall|x: A| #[trigger] s.filter(p).contains(x) <==> s.contains(x) && p(x),
        s.filter(p).len() <= s.len(),
        s.no_duplicates() ==> s.filter(p).no_duplicates(),
    decreases s.len(),
{
    reveal(Seq::filter);
    if s.len() > 0 {
        lemma_filter_contains(s.drop_last(), p);
        let f = s.drop_last().filter(p);
        assert forall|x: A| #[trigger] s.filter(p).contains(x) <==> s.contains(x) && p(x) by {
            assert(f.contains(x) <==> s.drop_last().contains(x) && p(x));
            if s.drop_last().contains(x) {
                let i = choose|i: int| 0 <= i < s.drop_last().len() && s.drop_last()[i] == x;
                assert(s[i] == x);
            }
            if s.contains(x) && x != s.last() {
                let i = choose|i: int| 0 <= i < s.len() && s[i] == x;
                assert(s.drop_last()[i] == x);
            }
            if p(s.last()) {
                assert(f.push(s.last())[f.len() as int] == s.last());
                if f.contains(x) {
                    let i = choose|i: int| 0 <= i < f.len() && f[i] == x;
                    assert(f.push(s.last())[i] == x);
                }
            }
            assert(s[s.len() - 1] == s.last());
        }
        if s.no_duplicates() && p(s.last()) {
            assert(!s.drop_last().contains(s.last())) by {
                if s.drop_last().contains(s.last()) {
                    let i = choose|i: int| 0 <= i < s.drop_last().len() && s.drop_last()[i] == s.last();
                    assert(s[i] == s[s.len() - 1]);
                }
            }
            assert(!f.contains(s.last()));
            assert(s.drop_last().no_duplicates());
            let g = f.push(s.last());
            assert forall|i: int, j: int| 0 <= i < g.len() && 0 <= j < g.len() && i != j implies g[i] != g[j] by {
                if i == f.len() {
                    assert(f.contains(f[j]));
                } else if j == f.len() {
                    assert(f.contains(f[i]));
                }
            }
        } else if s.no_duplicates() {
            assert(s.drop_last().no_duplicates());
        }
    }
}

/// Filtering drops something when an element fails.
pub proof fn lemma_filter_shrinks<A>(s: Seq<A>, p: spec_fn(A) -> bool, x: A)
    requires
        s.contains(x),
        !p(x),
    ensures
        s.filter(p).len() < s.len(),
    decreases s.len(),
{
    reveal(Seq::filter);
    lemma_filter_contains(s.drop_last(), p);
    if p(s.last()) {
        let i = choose|i: int| 0 <= i < s.len() && s[i] == x;
        assert(s.drop_last()[i] == x);
        lemma_filter_shrinks(s.drop_last(), p, x);
    }
}

/// Something passes the filter when an element does.
pub proof fn lemma_filter_nonempty<A>(s: Seq<A>, p: spec_fn(A) -> bool, x: A)
    requires
        s.contains(x),
        p(x),
    ensures
        s.filter(p).len() > 0,
{
    lemma_filter_contains(s, p);
    assert(s.filter(p).contains(x));
}

/// A sequence without the elements that equal their predecessor.
pub open spec fn without_repeats<A>(s: Seq<A>) -> Seq<A>
    decreases s.len(),
{
    if s.len() < 2 {
        s
    } else if s[s.len() - 1] == s[s.len() - 2] {
        without_repeats(s.drop_last())
    } else {
        without_repeats(s.drop_last()).push(s.last())
    }
}

/// Removing repeats keeps every element.
pub proof fn lemma_without_repeats<A>(s: Seq<A>)
    ensures
        s.len() > 0 ==> without_repeats(s).len() > 0 && without_repeats(s).last() == s.last(),
        forall|m: A| #[trigger] without_repeats(s).contains(m) <==> s.contains(m),
    decreases s.len(),
{
    if s.len() >= 2 {
        let front = s.drop_last();
        lemma_without_repeats(front);
        let f = without_repeats(front);
        assert forall|m: A| #[trigger] without_repeats(s).contains(m) <==> s.contains(m) by {
            assert(f.contains(m) <==> front.contains(m));
            assert(s =~= front.push(s.last()));
            if front.contains(m) {
                let i = choose|i: int| 0 <= i < front.len() && front[i] == m;
                assert(s[i] == m);
            }
            if s.contains(m) && m != s.last() {
                let i = choose|i: int| 0 <= i < s.len() && s[i] == m;
                assert(front[i] == m);
            }
            assert(f.push(s.last())[f.len() as int] == s.last());
            if f.contains(m) {
                let i = choose|i: int| 0 <= i < f.len() && f[i] == m;
                assert(f.push(s.last())[i] == m);
            }
            assert(s[s.len() - 1] == s.last());
            assert(f.contains(f.last())) by {
                assert(f[f.len() - 1] == f.last());
            }
        }
    }
}

/// The different elements of a sequence, in order of first appearance.
pub open spec fn firsts<A>(s: Seq<A>) -> Seq<A>
    decreases s.len(),
{
    if s.len() == 0 {
        s
    } else if firsts(s.drop_last()).contains(s.last()) {
        firsts(s.drop_last())
    } else {
        firsts(s.drop_last()).push(s.last())
    }
}

/// First appearances hold every element once.
pub proof fn lemma_firsts<A>(s: Seq<A>)
    ensures
        forall|x: A| #[trigger] firsts(s).contains(x) <==> s.contains(x),
        firsts(s).no_duplicates(),
        firsts(s).len() <= s.len(),
    decreases s.len(),
{
    if s.len() > 0 {
        let front = s.drop_last();
        lemma_firsts(front);
        let f = firsts(front);
        assert(s =~= front.push(s.last()));
        assert forall|x: A| #[trigger] firsts(s).contains(x) <==> s.contains(x) by {
            assert(f.contains(x) <==> front.contains(x));
            assert(s[s.len() - 1] == s.last());
            if front.contains(x) {
                let i = choose|i: int| 0 <= i < front.len() && front[i] == x;
                assert(s[i] == x);
            }
            if s.contains(x) && x != s.last() {
                let i = choose|i: int| 0 <= i < s.len() && s[i] == x;
                assert(front[i] == x);
            }
            if f.contains(x) {
                let i = choose|i: int| 0 <= i < f.len() && f[i] == x;
                assert(f.push(s.last())[i] == x);
            }
            assert(f.push(s.last())[f.len() as int] == s.last());
        }
    }
}

/// Nothing is left out where nothing repeats.
pub proof fn lemma_firsts_distinct<A>(s: Seq<A>)
    requires
        s.no_duplicates(),
    ensures
        firsts(s) == s,
    decreases s.len(),
{
    if s.len() > 0 {
        let front = s.drop_last();
        assert(front.no_duplicates());
        lemma_firsts_distinct(front);
        assert(!front.contains(s.last()));
        assert(s =~= front.push(s.last()));
    }
}

/// Two lists put together hold what either holds.
pub proof fn lemma_plus_contains<A>(a: Seq<A>, b: Seq<A>)
    ensures
        forall|x: A| #[trigger] (a + b).contains(x) <==> a.contains(x) || b.contains(x),
{
    assert forall|x: A| #[trigger] (a + b).contains(x) <==> a.contains(x) || b.contains(x) by {
        let c = a + b;
        if a.contains(x) {
            let i = choose|i: int| 0 <= i < a.len() && a[i] == x;
            assert(c[i] == x);
        }
        if b.contains(x) {
            let i = choose|i: int| 0 <= i < b.len() && b[i] == x;
            assert(c[a.len() + i] == x);
        }
        if c.contains(x) {
            let i = choose|i: int| 0 <= i < c.len() && c[i] == x;
            if i < a.len() {
                assert(a[i] == x);
            } else {
                assert(b[i - a.len()] == x);
            }
        }
    }
}

/// A list with one more element holds that one too.
pub proof fn lemma_push_contains<A>(a: Seq<A>, last: A)
    ensures
        forall|x: A| #[trigger] a.push(last).contains(x) <==> a.contains(x) || x == last,
{
    assert forall|x: A| #[trigger] a.push(last).contains(x) <==> a.contains(x) || x == last by {
        let c = a.push(last);
        assert(c[a.len() as int] == last);
        if a.contains(x) {
            let i = choose|i: int| 0 <= i < a.len() && a[i] == x;
            assert(c[i] == x);
        }
        if c.contains(x) {
            let i = choose|i: int| 0 <= i < c.len() && c[i] == x;
            if i < a.len() {
                assert(a[i] == x);
            }
        }
    }
}

} // verus!
