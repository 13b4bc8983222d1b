//! Which lines of a file a fact was seen at.

use vstd::prelude::*;

use crate::lines::{ends, ends_with, lemma_trimmed_before};
use crate::model::cell_factory::provenance_of;
use crate::model::graph::{Provenance, ProvenanceView};
use crate::model::space_data::{RelationRecord, RelationView};
use crate::model::witness::WitnessView;
use crate::text::{chars_of, decimal_text, digit_char, is_space, lemma_decimal_digits, same};

verus! {

/// A decimal digit.
pub open spec fn is_digit(c: char) -> bool {
    '0' <= c <= '9'
}

/// The digits at the end of a text.
pub open spec fn final_digits(s: Seq<char>) -> Seq<char>
    decreases s.len(),
{
    if s.len() == 0 || !is_digit(s.last()) {
        Seq::empty()
    } else {
        final_digits(s.drop_last()).push(s.last())
    }
}

/// What precedes the digits at the end of a text.
pub open spec fn before_digits(s: Seq<char>) -> Seq<char> {
    s.take(s.len() - final_digits(s).len())
}

/// The number that digits stand for.
pub open spec fn number(digits: Seq<char>) -> nat
    decreases digits.len(),
{
    if digits.len() == 0 {
        0
    } else {
        number(digits.drop_last()) * 10 + (digits.last() as nat - '0' as nat) as nat
    }
}

/// The number at the end of a text, where there is one that fits.
pub open spec fn final_number(s: Seq<char>) -> Option<u32> {
    let digits = final_digits(s);
    if digits.len() == 0 || number(digits) > u32::MAX {
        None
    } else {
        Some(number(digits) as u32)
    }
}

/// The lines at the end of a place, as in `Shop.java#L3-L7`.
pub open spec fn line_range(uri: Seq<char>) -> Option<(u32, u32)> {
    let first = before_digits(uri);
    if !ends(first, "-L"@) {
        None
    } else {
        let middle = first.take(first.len() - "-L"@.len());
        if !ends(before_digits(middle), "#L"@) {
            None
        } else {
            match (final_number(middle), final_number(uri)) {
                (Some(start), Some(end)) => Some((start, end)),
                _ => None,
            }
        }
    }
}

/// The lines that a provenance names; none are zero.
pub open spec fn named_lines(p: ProvenanceView) -> (u32, u32) {
    match p.uri {
        Some(uri) => match line_range(uri) {
            Some(lines) => lines,
            None => (0, 0),
        },
        None => (0, 0),
    }
}

/// The first relation record of a relation.
pub open spec fn record_of(relations: Seq<RelationView>, id: Seq<char>) -> Option<int>
    decreases relations.len(),
{
    if relations.len() == 0 {
        None
    } else {
        match record_of(relations.drop_last(), id) {
            Some(i) => Some(i),
            None => if relations.last().incidence_id == id {
                Some(relations.len() - 1)
            } else {
                None
            },
        }
    }
}

/// The lines of a relation: those of its record, or else those that its
/// provenance names.
pub open spec fn lines_of_link(relations: Seq<RelationView>, id: Seq<char>, p: ProvenanceView) -> (u32, u32) {
    match record_of(relations, id) {
        Some(i) => (relations[i].witness.start_line, relations[i].witness.end_line),
        None => named_lines(p),
    }
}

/// How many digits a text ends with.
fn count_digits(s: &[char]) -> (r: usize)
    ensures
        r == final_digits(s@).len(),
        r <= s@.len(),
{
    let n: usize = s.len();
    let mut i: usize = n;
    proof {
        lemma_final_digits(s@);
    }
    while i > 0 && '0' <= s[i - 1] && s[i - 1] <= '9'
        invariant
            i <= n == s@.len(),
            forall|k: int| i <= k < n ==> is_digit(#[trigger] s@[k]),
        decreases i,
    {
        i = i - 1;
    }
    proof {
        let head = s@.take(i as int);
        assert(s@ =~= head + s@.skip(i as int));
        lemma_digits_behind(head, s@.skip(i as int));
    }
    n - i
}

/// Reads the number at the end of a text.
fn read_number(s: &[char]) -> (r: Option<u32>)
    ensures
        r == final_number(s@),
{
    let n: usize = s.len();
    let count: usize = count_digits(s);
    let ghost digits = final_digits(s@);
    proof {
        lemma_final_digits(s@);
    }
    if count == 0 {
        return None;
    }
    let start: usize = n - count;
    let mut value: u64 = 0;
    let mut i: usize = 0;
    assert(digits.take(0) =~= Seq::empty());
    while i < count
        invariant
            i <= count == digits.len(),
            n == s@.len(),
            start == n - count,
            count <= n,
            digits == final_digits(s@),
            digits == s@.skip(start as int),
            forall|k: int| 0 <= k < digits.len() ==> is_digit(#[trigger] digits[k]),
            value == number(digits.take(i as int)),
            value <= u32::MAX,
        decreases count - i,
    {
        let c = s[start + i];
        assert(c == digits[i as int]);
        assert(is_digit(digits[i as int]));
        assert(digits.take(i + 1).drop_last() =~= digits.take(i as int));
        value = value * 10 + (c as u32 - '0' as u32) as u64;
        i = i + 1;
        assert(value == number(digits.take(i as int)));
        if value > u32::MAX as u64 {
            proof {
                lemma_number_grows(digits, i as int);
            }
            return None;
        }
    }
    assert(digits.take(i as int) =~= digits);
    Some(value as u32)
}

/// Reads the lines at the end of a place.
pub fn read_range(uri: &str) -> (r: Option<(u32, u32)>)
    ensures
        r == line_range(uri@),
{
    proof {
        reveal_strlit("-L");
    }
    let s = chars_of(uri);
    let all = s.as_slice();
    let first = vstd::slice::slice_subrange(all, 0, all.len() - count_digits(all));
    assert(first@ =~= before_digits(uri@));
    if !ends_with(first, "-L") {
        return None;
    }
    let middle = vstd::slice::slice_subrange(first, 0, first.len() - 2);
    assert(middle@ =~= first@.take(first@.len() - "-L"@.len()));
    let before = vstd::slice::slice_subrange(middle, 0, middle.len() - count_digits(middle));
    assert(before@ =~= before_digits(middle@));
    if !ends_with(before, "#L") {
        return None;
    }
    match (read_number(middle), read_number(all)) {
        (Some(start), Some(end)) => Some((start, end)),
        _ => None,
    }
}

/// Reads the lines that a provenance names.
pub fn lines_named(p: &Provenance) -> (r: (u32, u32))
    ensures
        r == named_lines(p@),
{
    match &p.uri {
        Some(uri) => match read_range(uri.as_str()) {
            Some(lines) => lines,
            None => (0, 0),
        },
        None => (0, 0),
    }
}

proof fn lemma_record_prefix(relations: Seq<RelationView>, id: Seq<char>, i: int)
    requires
        0 <= i <= relations.len(),
        record_of(relations.take(i), id) is Some,
    ensures
        record_of(relations, id) == record_of(relations.take(i), id),
    decreases relations.len() - i,
{
    if i < relations.len() {
        assert(relations.take(i + 1).drop_last() =~= relations.take(i));
        lemma_record_prefix(relations, id, i + 1);
    } else {
        assert(relations.take(i) =~= relations);
    }
}

/// The lines at which a relation was seen.
pub fn lines_at(relations: &Vec<RelationRecord>, id: &str, p: &Provenance) -> (r: (u32, u32))
    ensures
        r == lines_of_link(relations@.map_values(|x: RelationRecord| x@), id@, p@),
{
    let ghost all = relations@.map_values(|x: RelationRecord| x@);
    let mut i: usize = 0;
    while i < relations.len()
        invariant
            i <= relations@.len(),
            all == relations@.map_values(|x: RelationRecord| x@),
            record_of(all.take(i as int), id@) is None,
        decreases relations.len() - i,
    {
        assert(all[i as int] == relations@[i as int]@);
        assert(all.take(i + 1).drop_last() =~= all.take(i as int));
        if same(relations[i].incidence_id.as_str(), id) {
            proof {
                lemma_record_prefix(all, id@, i + 1);
            }
            return (relations[i].witness.start_line, relations[i].witness.end_line);
        }
        i = i + 1;
    }
    assert(all.take(i as int) =~= all);
    lines_named(p)
}

proof fn lemma_number_grows(digits: Seq<char>, i: int)
    requires
        0 <= i <= digits.len(),
    ensures
        number(digits.take(i)) <= number(digits),
    decreases digits.len() - i,
{
    if i < digits.len() {
        assert(digits.take(i + 1).drop_last() =~= digits.take(i));
        lemma_number_grows(digits, i + 1);
    } else {
        assert(digits.take(i) =~= digits);
    }
}

proof fn lemma_final_digits(s: Seq<char>)
    ensures
        final_digits(s).len() <= s.len(),
        final_digits(s) == s.skip(s.len() - final_digits(s).len()),
        forall|i: int| 0 <= i < final_digits(s).len() ==> is_digit(#[trigger] final_digits(s)[i]),
        final_digits(s).len() < s.len() ==> !is_digit(s[s.len() - final_digits(s).len() - 1]),
    decreases s.len(),
{
    if s.len() > 0 && is_digit(s.last()) {
        lemma_final_digits(s.drop_last());
        assert(final_digits(s) =~= s.skip(s.len() - final_digits(s).len()));
    } else {
        assert(s.skip(s.len() as int) =~= Seq::empty());
    }
}

proof fn lemma_digits_behind(head: Seq<char>, digits: Seq<char>)
    requires
        forall|i: int| 0 <= i < digits.len() ==> is_digit(#[trigger] digits[i]),
        head.len() > 0 ==> !is_digit(head.last()),
    ensures
        final_digits(head + digits) == digits,
        before_digits(head + digits) == head,
    decreases digits.len(),
{
    let s = head + digits;
    if digits.len() > 0 {
        assert(s.drop_last() =~= head + digits.drop_last());
        assert(s.last() == digits.last());
        lemma_digits_behind(head, digits.drop_last());
        assert(final_digits(s) =~= digits);
    } else {
        assert(s =~= head);
        assert(final_digits(s) =~= digits);
    }
    assert(before_digits(s) =~= head);
}

proof fn lemma_number_read(n: nat)
    ensures
        number(decimal_text(n)) == n,
    decreases n,
{
    if n < 10 {
        let s = decimal_text(n);
        assert(s.drop_last() =~= Seq::empty());
        assert(number(s.drop_last()) == 0);
        assert(s.last() as nat == '0' as nat + n);
    } else {
        lemma_number_read(n / 10);
        let s = decimal_text(n);
        assert(s.drop_last() =~= decimal_text(n / 10));
        assert(s.last() == digit_char(n % 10));
        assert(s.last() as nat == '0' as nat + n % 10);
    }
}

proof fn lemma_range_read(file: Seq<char>, start: u32, end: u32)
    ensures
        line_range(file + ("#L"@ + decimal_text(start as nat) + "-L"@ + decimal_text(end as nat))) == Some(
            (start, end),
        ),
{
    reveal_strlit("#L");
    reveal_strlit("-L");
    let a = decimal_text(start as nat);
    let b = decimal_text(end as nat);
    lemma_decimal_digits(start as nat);
    lemma_decimal_digits(end as nat);
    lemma_number_read(start as nat);
    lemma_number_read(end as nat);
    let uri = file + ("#L"@ + a + "-L"@ + b);
    let middle = file + "#L"@ + a;
    assert(uri =~= (middle + "-L"@) + b);
    lemma_digits_behind(middle + "-L"@, b);
    assert((middle + "-L"@).take(middle.len() as int) =~= middle);
    assert(crate::text::occurs_at(middle + "-L"@, "-L"@, middle.len() as int)) by {
        assert((middle + "-L"@).subrange(middle.len() as int, middle.len() as int + 2) =~= "-L"@);
    }
    lemma_digits_behind(file + "#L"@, a);
    assert(crate::text::occurs_at(file + "#L"@, "#L"@, file.len() as int)) by {
        assert((file + "#L"@).subrange(file.len() as int, file.len() as int + 2) =~= "#L"@);
    }
}

/// The provenance of a witness names the lines of the witness.
pub proof fn law_lines_read_back(w: WitnessView)
    ensures
        named_lines(provenance_of(w)) == (w.start_line, w.end_line),
{
    reveal_strlit("#L");
    let a = decimal_text(w.start_line as nat);
    let b = decimal_text(w.end_line as nat);
    lemma_decimal_digits(w.end_line as nat);
    let tail = "#L"@ + a + "-L"@ + b;
    assert(tail[0] == '#');
    assert(tail.last() == b.last());
    assert(is_digit(b[b.len() - 1]));
    assert(!is_space(tail[0]) && !is_space(tail.last()));
    assert(w.file + "#L"@ + a + "-L"@ + b =~= w.file + tail);
    let head = lemma_trimmed_before(w.file, tail);
    lemma_range_read(head, w.start_line, w.end_line);
}

} // verus!
