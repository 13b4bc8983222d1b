//! Packages and classes in qualified names, and tallies of names.

use vstd::prelude::*;

use crate::lines::{pieces, split_at_char};
use crate::text::{chars_of, is_upper, join, joined, texts};
use crate::text_map::{lemma_key_position, lookup, with_entry, TextMap};

verus! {

/// A segment that names a type: it starts with an upper-case letter.
pub open spec fn names_type(part: Seq<char>) -> bool {
    part.len() > 0 && is_upper(part[0])
}

/// The first segment from `i` on that names a type.
pub open spec fn first_type(parts: Seq<Seq<char>>, i: int) -> int
    decreases parts.len() - i,
{
    if 0 <= i < parts.len() && !names_type(parts[i]) {
        first_type(parts, i + 1)
    } else {
        i
    }
}

/// The segments before the first type name.
pub open spec fn package_of(fqn: Seq<char>) -> Seq<char> {
    let parts = pieces(fqn, '.');
    joined(parts.take(first_type(parts, 0)), "."@)
}

/// The segments up to the first type name; all of them when there is none.
pub open spec fn class_of(fqn: Seq<char>) -> Seq<char> {
    let parts = pieces(fqn, '.');
    let i = first_type(parts, 0);
    joined(
        if i < parts.len() {
            parts.take(i + 1)
        } else {
            parts
        },
        "."@,
    )
}

fn leading_segments(fqn: &str, with_type: bool) -> (r: String)
    ensures
        r@ == if with_type {
            class_of(fqn@)
        } else {
            package_of(fqn@)
        },
{
    let parts = split_at_char(chars_of(fqn).as_slice(), '.');
    let ghost all = pieces(fqn@, '.');
    let mut kept: Vec<String> = Vec::new();
    let n: usize = parts.len();
    let mut i: usize = 0;
    assert(texts(kept@) =~= all.take(0));
    while i < n
        invariant
            i <= n == parts@.len(),
            all == texts(parts@),
            texts(kept@) == all.take(i as int),
            first_type(all, 0) == first_type(all, i as int),
            with_type ==> class_of(fqn@) == joined(
                if first_type(all, 0) < all.len() {
                    all.take(first_type(all, 0) + 1)
                } else {
                    all
                },
                "."@,
            ),
            !with_type ==> package_of(fqn@) == joined(all.take(first_type(all, 0)), "."@),
        decreases n - i,
    {
        let part = chars_of(parts[i].as_str());
        let upper = part.len() > 0 && part[0].is_uppercase();
        assert(all[i as int] == parts@[i as int]@);
        if upper && !with_type {
            return join(kept.as_slice(), ".");
        }
        let ghost before = kept@;
        kept.push(parts[i].clone());
        assert(texts(kept@) =~= texts(before).push(all[i as int]));
        assert(texts(kept@) =~= all.take(i + 1));
        if upper {
            return join(kept.as_slice(), ".");
        }
        i = i + 1;
    }
    assert(all.take(i as int) =~= all);
    join(kept.as_slice(), ".")
}

/// The package of a qualified name.
pub fn package_name(fqn: &str) -> (r: String)
    ensures
        r@ == package_of(fqn@),
{
    leading_segments(fqn, false)
}

/// The class of a qualified name.
pub fn class_name(fqn: &str) -> (r: String)
    ensures
        r@ == class_of(fqn@),
{
    leading_segments(fqn, true)
}

/// How often a name has been counted.
pub open spec fn count_of(counts: Seq<(Seq<char>, usize)>, name: Seq<char>) -> usize {
    match lookup(counts, name) {
        Some(n) => n,
        None => 0,
    }
}

/// The counts with one more of a name.
pub open spec fn counted(counts: Seq<(Seq<char>, usize)>, name: Seq<char>) -> Seq<(Seq<char>, usize)> {
    with_entry(counts, name, (count_of(counts, name) + 1) as usize)
}

/// How often each name occurs, in order of first occurrence.
pub open spec fn tally(names: Seq<Seq<char>>) -> Seq<(Seq<char>, usize)>
    decreases names.len(),
{
    if names.len() == 0 {
        Seq::empty()
    } else {
        counted(tally(names.drop_last()), names.last())
    }
}

/// Every count is at most `n`.
pub open spec fn counts_within(counts: Seq<(Seq<char>, usize)>, n: nat) -> bool {
    forall|i: int| 0 <= i < counts.len() ==> (#[trigger] counts[i]).1 <= n
}

pub proof fn lemma_counted_within(counts: Seq<(Seq<char>, usize)>, name: Seq<char>, n: nat)
    requires
        counts_within(counts, n),
        n < usize::MAX,
    ensures
        counts_within(counted(counts, name), n + 1),
        count_of(counts, name) <= n,
{
    lemma_key_position(counts, name);
}

/// Counts one more of a name.
pub fn count_name(counts: &mut TextMap<usize>, name: String)
    requires
        count_of(old(counts).entries(), name@) < usize::MAX,
    ensures
        final(counts).entries() == counted(old(counts).entries(), name@),
{
    let n: usize = match counts.get(name.as_str()) {
        Some(n) => *n,
        None => 0,
    };
    counts.insert(name, n + 1);
}

/// How often each name occurs.
pub fn tally_names(names: &Vec<String>) -> (r: TextMap<usize>)
    ensures
        r.entries() == tally(texts(names@)),
{
    let mut counts: TextMap<usize> = TextMap::new();
    let ghost all = texts(names@);
    let mut i: usize = 0;
    while i < names.len()
        invariant
            i <= names@.len(),
            all == texts(names@),
            counts.entries() == tally(all.take(i as int)),
            counts_within(counts.entries(), i as nat),
        decreases names.len() - i,
    {
        proof {
            lemma_counted_within(counts.entries(), all[i as int], i as nat);
            assert(all.take(i + 1).drop_last() =~= all.take(i as int));
        }
        count_name(&mut counts, names[i].clone());
        i = i + 1;
    }
    assert(all.take(i as int) =~= all);
    counts
}

/// The names in order of first occurrence, once each.
pub open spec fn distinct_names(names: Seq<Seq<char>>) -> Seq<Seq<char>>
    decreases names.len(),
{
    if names.len() == 0 {
        Seq::empty()
    } else {
        let before = distinct_names(names.drop_last());
        if before.contains(names.last()) {
            before
        } else {
            before.push(names.last())
        }
    }
}

} // verus!
