//! Stable sorting against a caller-supplied total preorder.

use vstd::prelude::*;

verus! {

/// `le` compares any two values and chains.
pub open spec fn total_preorder<T>(le: spec_fn(T, T) -> bool) -> bool {
    &&& forall|a: T, b: T| #[trigger] le(a, b) || le(b, a)
    &&& forall|a: T, b: T, c: T| #[trigger] le(a, b) && #[trigger] le(b, c) ==> le(a, c)
}

/// `s` with `x` inserted behind everything that is at most `x`, scanning from the end.
pub open spec fn insert_stable<T>(s: Seq<T>, x: T, le: spec_fn(T, T) -> bool) -> Seq<T>
    decreases s.len(),
{
    if s.len() == 0 || le(s.last(), x) {
        s.push(x)
    } else {
        insert_stable(s.drop_last(), x, le).push(s.last())
    }
}

/// `s` in ascending order of `le`; equal elements keep their order.
pub open spec fn stable_sorted<T>(s: Seq<T>, le: spec_fn(T, T) -> bool) -> Seq<T>
    decreases s.len(),
{
    if s.len() == 0 {
        s
    } else {
        insert_stable(stable_sorted(s.drop_last(), le), s.last(), le)
    }
}

/// Every element is at most each later one.
pub open spec fn ascending<T>(s: Seq<T>, le: spec_fn(T, T) -> bool) -> bool {
    forall|i: int, j: int| #![trigger s[i], s[j]] 0 <= i < j < s.len() ==> le(s[i], s[j])
}

spec fn merged<T>(l: Seq<T>, r: Seq<T>, le: spec_fn(T, T) -> bool) -> Seq<T>
    decreases l.len() + r.len(),
{
    if r.len() == 0 {
        l
    } else if l.len() == 0 {
        r
    } else if le(l.last(), r.last()) {
        merged(l, r.drop_last(), le).push(r.last())
    } else {
        merged(l.drop_last(), r, le).push(l.last())
    }
}

proof fn lemma_insert_merged<T>(a: Seq<T>, b: Seq<T>, x: T, le: spec_fn(T, T) -> bool)
    requires
        total_preorder(le),
    ensures
        insert_stable(merged(a, b, le), x, le) == merged(a, insert_stable(b, x, le), le),
    decreases a.len() + b.len(),
{
    let m = merged(a, b, le);
    let bx = insert_stable(b, x, le);
    assert(bx.len() > 0);
    if b.len() == 0 {
        assert(bx.drop_last() =~= b);
        if a.len() > 0 && !le(a.last(), x) {
            lemma_insert_merged(a.drop_last(), b, x, le);
        }
    } else if a.len() == 0 {
    } else if le(a.last(), b.last()) {
        assert(m.drop_last() =~= merged(a, b.drop_last(), le));
        if le(b.last(), x) {
            assert(bx.drop_last() =~= b);
        } else {
            lemma_insert_merged(a, b.drop_last(), x, le);
            assert(bx.drop_last() =~= insert_stable(b.drop_last(), x, le));
        }
    } else {
        assert(m.drop_last() =~= merged(a.drop_last(), b, le));
        if le(a.last(), x) {
            assert(le(b.last(), a.last()));
            assert(bx.drop_last() =~= b);
        } else {
            lemma_insert_merged(a.drop_last(), b, x, le);
            assert(bx.last() == x || bx.last() == b.last());
        }
    }
}

proof fn lemma_sorted_concat<T>(a: Seq<T>, b: Seq<T>, le: spec_fn(T, T) -> bool)
    requires
        total_preorder(le),
    ensures
        stable_sorted(a + b, le) == merged(stable_sorted(a, le), stable_sorted(b, le), le),
    decreases b.len(),
{
    if b.len() == 0 {
        assert(a + b =~= a);
    } else {
        assert((a + b).drop_last() =~= a + b.drop_last());
        lemma_sorted_concat(a, b.drop_last(), le);
        lemma_insert_merged(stable_sorted(a, le), stable_sorted(b.drop_last(), le), b.last(), le);
    }
}

proof fn lemma_insert_stable<T>(s: Seq<T>, x: T, le: spec_fn(T, T) -> bool)
    ensures
        insert_stable(s, x, le).len() == s.len() + 1,
        insert_stable(s, x, le).to_multiset() == s.to_multiset().insert(x),
        total_preorder(le) && ascending(s, le) ==> ascending(insert_stable(s, x, le), le),
    decreases s.len(),
{
    broadcast use vstd::seq_lib::group_to_multiset_ensures;
    let r = insert_stable(s, x, le);
    if s.len() == 0 || le(s.last(), x) {
        if total_preorder(le) && ascending(s, le) {
            assert forall|i: int, j: int| #![trigger r[i], r[j]] 0 <= i < j < r.len() implies le(r[i], r[j]) by {
                if j == s.len() && i < s.len() - 1 {
                    assert(le(s[i], s[s.len() - 1]));
                }
            }
        }
    } else {
        let p = insert_stable(s.drop_last(), x, le);
        lemma_insert_stable(s.drop_last(), x, le);
        assert(s =~= s.drop_last().push(s.last()));
        assert(s.drop_last().to_multiset().insert(x).insert(s.last()) =~= s.drop_last().to_multiset().insert(
            s.last(),
        ).insert(x));
        if total_preorder(le) && ascending(s, le) {
            assert(ascending(s.drop_last(), le));
            assert(le(x, s.last()));
            assert forall|i: int, j: int| #![trigger r[i], r[j]] 0 <= i < j < r.len() implies le(r[i], r[j]) by {
                if j == p.len() {
                    assert(p.to_multiset().contains(p[i]));
                    if p[i] != x {
                        assert(s.drop_last().to_multiset().contains(p[i]));
                        assert(s.drop_last().contains(p[i]));
                        let k = choose|k: int| 0 <= k < s.drop_last().len() && s.drop_last()[k] == p[i];
                        assert(le(s[k], s[s.len() - 1]));
                    }
                }
            }
        }
    }
}

/// Sorting keeps the elements and puts them in ascending order.
pub proof fn lemma_stable_sorted<T>(s: Seq<T>, le: spec_fn(T, T) -> bool)
    ensures
        stable_sorted(s, le).len() == s.len(),
        stable_sorted(s, le).to_multiset() == s.to_multiset(),
        total_preorder(le) ==> ascending(stable_sorted(s, le), le),
    decreases s.len(),
{
    broadcast use vstd::seq_lib::group_to_multiset_ensures;
    if s.len() > 0 {
        lemma_stable_sorted(s.drop_last(), le);
        lemma_insert_stable(stable_sorted(s.drop_last(), le), s.last(), le);
        assert(s =~= s.drop_last().push(s.last()));
    }
}

/// Sorting neither adds nor loses an element.
pub proof fn lemma_stable_sorted_contains<T>(s: Seq<T>, le: spec_fn(T, T) -> bool)
    ensures
        forall|x: T| #[trigger] stable_sorted(s, le).contains(x) <==> s.contains(x),
{
    broadcast use vstd::seq_lib::group_to_multiset_ensures;
    lemma_stable_sorted(s, le);
    let r = stable_sorted(s, le);
    assert forall|x: T| #[trigger] r.contains(x) <==> s.contains(x) by {
        assert(r.to_multiset().count(x) > 0 <==> r.contains(x));
        assert(s.to_multiset().count(x) > 0 <==> s.contains(x));
    }
}

/// Sorting distinct elements leaves them distinct.
pub proof fn lemma_stable_sorted_distinct<T>(s: Seq<T>, le: spec_fn(T, T) -> bool)
    requires
        s.no_duplicates(),
    ensures
        stable_sorted(s, le).no_duplicates(),
{
    lemma_stable_sorted(s, le);
    s.lemma_multiset_has_no_duplicates();
    stable_sorted(s, le).lemma_multiset_has_no_duplicates_conv();
}

proof fn lemma_insert_map<T, U>(
    s: Seq<T>,
    x: T,
    f: spec_fn(T) -> U,
    le: spec_fn(T, T) -> bool,
    image_le: spec_fn(U, U) -> bool,
)
    requires
        forall|a: T, b: T| #[trigger] le(a, b) == image_le(f(a), f(b)),
    ensures
        insert_stable(s, x, le).map_values(f) == insert_stable(s.map_values(f), f(x), image_le),
    decreases s.len(),
{
    let m = s.map_values(f);
    if s.len() == 0 || le(s.last(), x) {
        assert(s.push(x).map_values(f) =~= m.push(f(x)));
    } else {
        lemma_insert_map(s.drop_last(), x, f, le, image_le);
        assert(s.drop_last().map_values(f) =~= m.drop_last());
        let p = insert_stable(s.drop_last(), x, le);
        assert(p.push(s.last()).map_values(f) =~= p.map_values(f).push(f(s.last())));
    }
}

/// Sorting by what a function shows of the elements sorts what it shows.
pub proof fn lemma_sorted_map<T, U>(
    s: Seq<T>,
    f: spec_fn(T) -> U,
    le: spec_fn(T, T) -> bool,
    image_le: spec_fn(U, U) -> bool,
)
    requires
        forall|a: T, b: T| #[trigger] le(a, b) == image_le(f(a), f(b)),
    ensures
        stable_sorted(s, le).map_values(f) == stable_sorted(s.map_values(f), image_le),
    decreases s.len(),
{
    let m = s.map_values(f);
    if s.len() == 0 {
        assert(m =~= s.map_values(f));
    } else {
        lemma_sorted_map(s.drop_last(), f, le, image_le);
        assert(s.drop_last().map_values(f) =~= m.drop_last());
        lemma_insert_map(stable_sorted(s.drop_last(), le), s.last(), f, le, image_le);
    }
}

/// `lt` never holds both ways and chains.
pub open spec fn strict_order<T>(lt: spec_fn(T, T) -> bool) -> bool {
    &&& forall|a: T, b: T| #[trigger] lt(a, b) ==> !lt(b, a)
    &&& forall|a: T, b: T, c: T| #[trigger] lt(a, b) && #[trigger] lt(b, c) ==> lt(a, c)
}

/// A strictly ascending sequence is determined by its elements.
pub proof fn lemma_ascending_unique<T>(a: Seq<T>, b: Seq<T>, lt: spec_fn(T, T) -> bool)
    requires
        strict_order(lt),
        ascending(a, lt),
        ascending(b, lt),
        forall|x: T| #[trigger] a.contains(x) <==> b.contains(x),
    ensures
        a == b,
    decreases a.len(),
{
    if a.len() == 0 {
        if b.len() > 0 {
            assert(b.contains(b[0]));
            assert(a.contains(b[0]));
        }
        assert(a =~= b);
    } else {
        assert(a[a.len() - 1] == a.last());
        assert(a.contains(a.last()));
        assert(b.contains(a.last()));
        let i = choose|i: int| 0 <= i < b.len() && b[i] == a.last();
        assert(b[b.len() - 1] == b.last());
        assert(b.contains(b.last()));
        assert(a.contains(b.last()));
        let j = choose|j: int| 0 <= j < a.len() && a[j] == b.last();
        if i < b.len() - 1 {
            assert(lt(b[i], b[b.len() - 1]));
            if j < a.len() - 1 {
                assert(lt(a[j], a[a.len() - 1]));
            }
            assert(false);
        }
        assert(a.last() == b.last());
        let c = a.drop_last();
        let d = b.drop_last();
        assert forall|x: T| #[trigger] c.contains(x) <==> d.contains(x) by {
            if c.contains(x) {
                let k = choose|k: int| 0 <= k < c.len() && c[k] == x;
                assert(a[k] == x && a.contains(x));
                assert(lt(a[k], a[a.len() - 1]));
                assert(b.contains(x));
                let l = choose|l: int| 0 <= l < b.len() && b[l] == x;
                assert(d[l] == x);
            }
            if d.contains(x) {
                let k = choose|k: int| 0 <= k < d.len() && d[k] == x;
                assert(b[k] == x && b.contains(x));
                assert(lt(b[k], b[b.len() - 1]));
                assert(a.contains(x));
                let l = choose|l: int| 0 <= l < a.len() && a[l] == x;
                assert(c[l] == x);
            }
        }
        assert forall|p: int, q: int| #![trigger c[p], c[q]] 0 <= p < q < c.len() implies lt(c[p], c[q]) by {
            assert(lt(a[p], a[q]));
        }
        assert forall|p: int, q: int| #![trigger d[p], d[q]] 0 <= p < q < d.len() implies lt(d[p], d[q]) by {
            assert(lt(b[p], b[q]));
        }
        lemma_ascending_unique(c, d, lt);
        assert(a =~= c.push(a.last()));
        assert(b =~= d.push(b.last()));
    }
}

fn reversed<T>(v: Vec<T>) -> (r: Vec<T>)
    ensures
        r@ == v@.reverse(),
{
    let ghost s = v@;
    let mut v = v;
    let mut r: Vec<T> = Vec::new();
    while v.len() > 0
        invariant
            v.len() <= s.len(),
            v@ == s.take(v.len() as int),
            r@ == s.skip(v.len() as int).reverse(),
        decreases v.len(),
    {
        match v.pop() {
            Some(x) => {
                r.push(x);
                assert(v@ =~= s.take(v.len() as int));
                assert(r@ =~= s.skip(v.len() as int).reverse());
            },
            None => {},
        }
    }
    assert(s.skip(0) =~= s);
    r
}

fn merge<T, F: Fn(&T, &T) -> bool>(l: Vec<T>, r: Vec<T>, at_most: &F, Ghost(le): Ghost<spec_fn(T, T) -> bool>) -> (out: Vec<T>)
    requires
        forall|a: &T, b: &T| call_requires(*at_most, (a, b)),
        forall|a: &T, b: &T, t: bool| call_ensures(*at_most, (a, b), t) ==> t == le(*a, *b),
    ensures
        out@ == merged(l@, r@, le),
{
    let ghost all = merged(l@, r@, le);
    let mut l = l;
    let mut r = r;
    let mut tail: Vec<T> = Vec::new();
    while l.len() > 0 && r.len() > 0
        invariant
            forall|a: &T, b: &T| call_requires(*at_most, (a, b)),
            forall|a: &T, b: &T, t: bool| call_ensures(*at_most, (a, b), t) ==> t == le(*a, *b),
            all == merged(l@, r@, le) + tail@.reverse(),
        decreases l.len() + r.len(),
    {
        let ghost l0 = l@;
        let ghost r0 = r@;
        let ghost t0 = tail@;
        let right = at_most(&l[l.len() - 1], &r[r.len() - 1]);
        if right {
            match r.pop() {
                Some(x) => {
                    tail.push(x);
                    assert(r@ =~= r0.drop_last());
                    assert(merged(l0, r0, le) + t0.reverse() =~= merged(l@, r@, le) + tail@.reverse());
                },
                None => {},
            }
        } else {
            match l.pop() {
                Some(x) => {
                    tail.push(x);
                    assert(l@ =~= l0.drop_last());
                    assert(merged(l0, r0, le) + t0.reverse() =~= merged(l@, r@, le) + tail@.reverse());
                },
                None => {},
            }
        }
    }
    let mut back = reversed(tail);
    if r.len() == 0 {
        let mut out = l;
        out.append(&mut back);
        out
    } else {
        let mut out = r;
        out.append(&mut back);
        out
    }
}

/// `v` sorted by `at_most`, which decides `le`; equal elements keep their order.
pub fn sort_stable<T, F: Fn(&T, &T) -> bool>(
    v: Vec<T>,
    at_most: &F,
    Ghost(le): Ghost<spec_fn(T, T) -> bool>,
) -> (r: Vec<T>)
    requires
        total_preorder(le),
        forall|a: &T, b: &T| call_requires(*at_most, (a, b)),
        forall|a: &T, b: &T, t: bool| call_ensures(*at_most, (a, b), t) ==> t == le(*a, *b),
    ensures
        r@ == stable_sorted(v@, le),
    decreases v.len(),
{
    let ghost s = v@;
    if v.len() < 2 {
        proof {
            if s.len() == 1 {
                assert(s.drop_last().len() == 0);
                assert(stable_sorted(s.drop_last(), le).len() == 0);
                assert(s =~= stable_sorted(s.drop_last(), le).push(s.last()));
            }
        }
        return v;
    }
    let mut left = v;
    let mid: usize = left.len() / 2;
    let right = left.split_off(mid);
    assert(left@ + right@ =~= s);
    proof {
        lemma_sorted_concat(left@, right@, le);
    }
    let left = sort_stable(left, at_most, Ghost(le));
    let right = sort_stable(right, at_most, Ghost(le));
    merge(left, right, at_most, Ghost(le))
}

} // verus!
