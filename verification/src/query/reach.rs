//! What can be reached over a list of edges.

use vstd::prelude::*;

use crate::text::same;
use crate::text_set::{including, TextSet};

verus! {

/// The list with the ends of the first `n` edges that start at `current`.
pub open spec fn with_ends(
    edges: Seq<(Seq<char>, Seq<char>)>,
    n: int,
    current: Seq<char>,
    list: Seq<Seq<char>>,
) -> Seq<Seq<char>>
    decreases n,
{
    if n <= 0 {
        list
    } else {
        let before = with_ends(edges, n - 1, current, list);
        if edges[n - 1].0 == current {
            including(before, edges[n - 1].1)
        } else {
            before
        }
    }
}

/// The number of edges whose end is not in the list.
pub open spec fn ends_missing(edges: Seq<(Seq<char>, Seq<char>)>, list: Seq<Seq<char>>) -> nat
    decreases edges.len(),
{
    if edges.len() == 0 {
        0
    } else {
        ends_missing(edges.drop_last(), list) + if list.contains(edges.last().1) {
            0nat
        } else {
            1nat
        }
    }
}

pub open spec fn steps_left(edges: Seq<(Seq<char>, Seq<char>)>, list: Seq<Seq<char>>, at: int) -> int {
    ends_missing(edges, list) + list.len() - at
}

/// The list closed under the edges; its elements before `at` are done.
pub open spec fn closed_from(edges: Seq<(Seq<char>, Seq<char>)>, list: Seq<Seq<char>>, at: int) -> Seq<Seq<char>>
    decreases steps_left(edges, list, at),
{
    if at < 0 || at >= list.len() {
        list
    } else {
        let next = with_ends(edges, edges.len() as int, list[at], list);
        if 0 <= steps_left(edges, next, at + 1) < steps_left(edges, list, at) {
            closed_from(edges, next, at + 1)
        } else {
            list
        }
    }
}

/// Everything that can be reached from a start, breadth first.
pub open spec fn reached(edges: Seq<(Seq<char>, Seq<char>)>, start: Seq<char>) -> Seq<Seq<char>> {
    closed_from(edges, seq![start], 0)
}

/// An edge leads from one name to the other.
pub open spec fn is_edge(edges: Seq<(Seq<char>, Seq<char>)>, from: Seq<char>, to: Seq<char>) -> bool {
    edges.contains((from, to))
}

/// A path of `n` edges leads from one name to the other.
pub open spec fn is_path(edges: Seq<(Seq<char>, Seq<char>)>, from: Seq<char>, to: Seq<char>, n: nat) -> bool
    decreases n,
{
    if n == 0 {
        from == to
    } else {
        exists|mid: Seq<char>| #[trigger] is_edge(edges, mid, to) && is_path(edges, from, mid, (n - 1) as nat)
    }
}

/// A path leads from one name to the other.
pub open spec fn is_reachable(edges: Seq<(Seq<char>, Seq<char>)>, from: Seq<char>, to: Seq<char>) -> bool {
    exists|n: nat| is_path(edges, from, to, n)
}

proof fn lemma_including(list: Seq<Seq<char>>, text: Seq<char>)
    ensures
        forall|x: Seq<char>| #[trigger] including(list, text).contains(x) <==> list.contains(x) || x == text,
        including(list, text).len() >= list.len(),
        forall|i: int| 0 <= i < list.len() ==> including(list, text)[i] == #[trigger] list[i],
{
    let more = including(list, text);
    assert forall|x: Seq<char>| #[trigger] more.contains(x) <==> list.contains(x) || x == text by {
        if list.contains(x) {
            let i = choose|i: int| 0 <= i < list.len() && list[i] == x;
            assert(more[i] == x);
        }
        if !list.contains(text) {
            assert(more[list.len() as int] == text);
        }
    }
}

proof fn lemma_missing(edges: Seq<(Seq<char>, Seq<char>)>, list: Seq<Seq<char>>, text: Seq<char>)
    ensures
        ends_missing(edges, including(list, text)) <= ends_missing(edges, list),
        !list.contains(text) && (exists|i: int| 0 <= i < edges.len() && (#[trigger] edges[i]).1 == text)
            ==> ends_missing(edges, including(list, text)) < ends_missing(edges, list),
    decreases edges.len(),
{
    lemma_including(list, text);
    if edges.len() > 0 {
        let front = edges.drop_last();
        lemma_missing(front, list, text);
        if exists|i: int| 0 <= i < edges.len() && (#[trigger] edges[i]).1 == text {
            let i = choose|i: int| 0 <= i < edges.len() && (#[trigger] edges[i]).1 == text;
            if i < front.len() {
                assert(front[i].1 == text);
            }
        }
    }
}

proof fn lemma_with_ends(edges: Seq<(Seq<char>, Seq<char>)>, n: int, current: Seq<char>, list: Seq<Seq<char>>)
    requires
        0 <= n <= edges.len(),
    ensures
        with_ends(edges, n, current, list).len() >= list.len(),
        forall|i: int| 0 <= i < list.len() ==> with_ends(edges, n, current, list)[i] == #[trigger] list[i],
        ends_missing(edges, with_ends(edges, n, current, list)) + with_ends(edges, n, current, list).len()
            <= ends_missing(edges, list) + list.len(),
        forall|x: Seq<char>| #[trigger]
            with_ends(edges, n, current, list).contains(x) <==> list.contains(x) || edges.take(n).contains(
                (current, x),
            ),
    decreases n,
{
    if n > 0 {
        lemma_with_ends(edges, n - 1, current, list);
        let before = with_ends(edges, n - 1, current, list);
        let (from, to) = edges[n - 1];
        lemma_including(before, to);
        lemma_missing(edges, before, to);
        let a = edges.take(n - 1);
        let b = edges.take(n);
        assert(b =~= a.push((from, to)));
        assert forall|x: Seq<char>| #[trigger] with_ends(edges, n, current, list).contains(x) <==> list.contains(x)
            || b.contains((current, x)) by {
            assert(before.contains(x) <==> list.contains(x) || a.contains((current, x)));
            if a.contains((current, x)) {
                let i = choose|i: int| 0 <= i < a.len() && a[i] == (current, x);
                assert(b[i] == (current, x));
            }
            if b.contains((current, x)) {
                let i = choose|i: int| 0 <= i < b.len() && b[i] == (current, x);
                if i < a.len() {
                    assert(a[i] == (current, x));
                }
            }
            if from == current && x == to {
                assert(b[n - 1] == (current, x));
            }
        }
        assert forall|i: int| 0 <= i < list.len() implies with_ends(edges, n, current, list)[i] == #[trigger] list[i] by {
            assert(before[i] == list[i]);
        }
    } else {
        assert(edges.take(0) =~= Seq::empty());
    }
}

/// Everything in the list is reachable, and what is done has its ends there.
spec fn is_sound(edges: Seq<(Seq<char>, Seq<char>)>, start: Seq<char>, list: Seq<Seq<char>>, at: int) -> bool {
    &&& list.contains(start)
    &&& forall|i: int| 0 <= i < list.len() ==> is_reachable(edges, start, #[trigger] list[i])
    &&& forall|i: int, x: Seq<char>|
        0 <= i < at && i < list.len() && #[trigger] is_edge(edges, list[i], x) ==> list.contains(x)
}

proof fn lemma_closed(edges: Seq<(Seq<char>, Seq<char>)>, start: Seq<char>, list: Seq<Seq<char>>, at: int)
    requires
        0 <= at <= list.len(),
        is_sound(edges, start, list, at),
    ensures
        is_sound(
            edges,
            start,
            closed_from(edges, list, at),
            closed_from(edges, list, at).len() as int,
        ),
    decreases steps_left(edges, list, at),
{
    if at < list.len() {
        let current = list[at];
        let next = with_ends(edges, edges.len() as int, current, list);
        lemma_with_ends(edges, edges.len() as int, current, list);
        assert(edges.take(edges.len() as int) =~= edges);
        assert forall|i: int| 0 <= i < next.len() implies is_reachable(edges, start, #[trigger] next[i]) by {
            let x = next[i];
            assert(next.contains(x));
            if list.contains(x) {
                let j = choose|j: int| 0 <= j < list.len() && list[j] == x;
                assert(is_reachable(edges, start, list[j]));
            } else {
                assert(is_edge(edges, current, x));
                assert(is_reachable(edges, start, list[at]));
                let n = choose|n: nat| is_path(edges, start, current, n);
                assert(is_path(edges, start, x, (n + 1) as nat));
            }
        }
        assert forall|i: int, x: Seq<char>|
            0 <= i < at + 1 && i < next.len() && #[trigger] is_edge(edges, next[i], x) implies next.contains(x) by {
            assert(next[i] == list[i]);
            if i < at {
                assert(is_edge(edges, list[i], x));
                assert(list.contains(x));
            }
        }
        let k = choose|k: int| 0 <= k < list.len() && list[k] == start;
        assert(next[k] == start);
        assert(steps_left(edges, next, at + 1) < steps_left(edges, list, at));
        lemma_closed(edges, start, next, at + 1);
    }
}

proof fn lemma_path_inside(edges: Seq<(Seq<char>, Seq<char>)>, start: Seq<char>, list: Seq<Seq<char>>, x: Seq<char>, n: nat)
    requires
        is_sound(edges, start, list, list.len() as int),
        is_path(edges, start, x, n),
    ensures
        list.contains(x),
    decreases n,
{
    if n > 0 {
        let mid = choose|mid: Seq<char>| #[trigger]
            is_edge(edges, mid, x) && is_path(edges, start, mid, (n - 1) as nat);
        lemma_path_inside(edges, start, list, mid, (n - 1) as nat);
        let i = choose|i: int| 0 <= i < list.len() && list[i] == mid;
        assert(is_edge(edges, list[i], x));
    }
}

/// A name is reached exactly when a path leads to it.
pub proof fn law_reached(edges: Seq<(Seq<char>, Seq<char>)>, start: Seq<char>, x: Seq<char>)
    ensures
        reached(edges, start).contains(x) <==> is_reachable(edges, start, x),
{
    let list = seq![start];
    assert(list[0] == start);
    assert(is_path(edges, start, start, 0));
    assert(is_sound(edges, start, list, 0));
    lemma_closed(edges, start, list, 0);
    let all = reached(edges, start);
    if all.contains(x) {
        let i = choose|i: int| 0 <= i < all.len() && all[i] == x;
        assert(is_reachable(edges, start, all[i]));
    }
    if is_reachable(edges, start, x) {
        let n = choose|n: nat| is_path(edges, start, x, n);
        lemma_path_inside(edges, start, all, x, n);
    }
}

/// What a list of pairs of strings holds.
pub open spec fn edge_views(v: Seq<(String, String)>) -> Seq<(Seq<char>, Seq<char>)> {
    v.map_values(|p: (String, String)| (p.0@, p.1@))
}

/// Everything that can be reached from a start.
pub fn reachable_from(edges: &Vec<(String, String)>, start: &str) -> (r: TextSet)
    ensures
        r.texts() == reached(edge_views(edges@), start@),
{
    let ghost all = edge_views(edges@);
    let mut list = TextSet::new();
    list.add_text(start.to_owned());
    let mut at: usize = 0;
    assert(list.texts() =~= seq![start@]);
    while at < list.len()
        invariant
            all == edge_views(edges@),
            at <= list.texts().len(),
            reached(all, start@) == closed_from(all, list.texts(), at as int),
        decreases steps_left(all, list.texts(), at as int),
    {
        let current = list.text_at(at).clone();
        let ghost before = list.texts();
        let mut i: usize = 0;
        while i < edges.len()
            invariant
                all == edge_views(edges@),
                i <= edges@.len(),
                list.texts() == with_ends(all, i as int, current@, before),
            decreases edges.len() - i,
        {
            assert(all[i as int] == (edges@[i as int].0@, edges@[i as int].1@));
            if same(edges[i].0.as_str(), current.as_str()) {
                list.add_text(edges[i].1.clone());
            }
            i = i + 1;
        }
        proof {
            lemma_with_ends(all, all.len() as int, current@, before);
        }
        at = at + 1;
    }
    list
}

} // verus!
