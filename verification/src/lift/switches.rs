//! The shape of Java statements: groups of a `switch`, breaks, exits and the
//! conditions that statements test.

use vstd::prelude::*;

use crate::lift::symbolic::{is_binary, is_not};
use crate::lift::syntax::{child_in_role, first_named, node_end, NodeView, SyntaxTree};
use crate::lines::{strip, stripped};
use crate::text::{chars_of, normalize, normalized, same, texts};

verus! {

/// A statement: a named node that is not the label of a case.
pub open spec fn is_stmt(n: NodeView) -> bool {
    n.named && n.kind != "switch_label"@
}

/// The first statement of a range; its end when there is none.
pub open spec fn first_stmt(t: Seq<NodeView>, lo: int, hi: int) -> int
    decreases hi - lo,
{
    if lo >= hi {
        hi
    } else if is_stmt(t[lo]) {
        lo
    } else {
        first_stmt(t, node_end(t, lo, hi), hi)
    }
}

pub open spec fn stmt_at(t: Seq<NodeView>, lo: int, hi: int) -> int {
    let p = first_stmt(t, lo, hi);
    if lo <= p <= hi {
        p
    } else {
        hi
    }
}

/// The last statement of a range.
pub open spec fn last_stmt(t: Seq<NodeView>, lo: int, hi: int) -> Option<int>
    decreases hi - lo,
{
    if lo >= hi {
        None
    } else {
        match last_stmt(t, node_end(t, lo, hi), hi) {
            Some(p) => Some(p),
            None => if is_stmt(t[lo]) {
                Some(lo)
            } else {
                None
            },
        }
    }
}

/// The method can be left inside the range.
pub open spec fn has_exit(t: Seq<NodeView>, lo: int, hi: int) -> bool {
    exists|i: int| lo <= i < hi && #[trigger] is_exit(t[i])
}

pub open spec fn is_exit(n: NodeView) -> bool {
    n.kind == "return_statement"@ || n.kind == "throw_statement"@
}

/// A node that binds the breaks inside it.
pub open spec fn binds_breaks(n: NodeView) -> bool {
    ||| n.kind == "switch_expression"@
    ||| n.kind == "switch_statement"@
    ||| n.kind == "while_statement"@
    ||| n.kind == "for_statement"@
    ||| n.kind == "enhanced_for_statement"@
    ||| n.kind == "do_statement"@
    ||| n.kind == "switch_label"@
}

/// The number of breaks in a range that leave the enclosing switch.
pub open spec fn breaks_in(t: Seq<NodeView>, lo: int, hi: int) -> nat
    decreases hi - lo,
{
    if lo >= hi {
        0
    } else {
        let end = node_end(t, lo, hi);
        let here: nat = if t[lo].kind == "break_statement"@ {
            1
        } else if binds_breaks(t[lo]) {
            0
        } else {
            breaks_in(t, lo + 1, end)
        };
        here + breaks_in(t, end, hi)
    }
}

/// The collapsed texts of the named siblings in a range.
pub open spec fn named_texts(t: Seq<NodeView>, lo: int, hi: int) -> Seq<Seq<char>>
    decreases hi - lo,
{
    if lo >= hi {
        Seq::empty()
    } else {
        let rest = named_texts(t, node_end(t, lo, hi), hi);
        if t[lo].named {
            seq![normalized(t[lo].text)] + rest
        } else {
            rest
        }
    }
}

/// The values of the case labels among the siblings in a range.
pub open spec fn label_values(t: Seq<NodeView>, lo: int, hi: int) -> Seq<Seq<char>>
    decreases hi - lo,
{
    if lo >= hi {
        Seq::empty()
    } else {
        let end = node_end(t, lo, hi);
        let rest = label_values(t, end, hi);
        if t[lo].named && t[lo].kind == "switch_label"@ {
            named_texts(t, lo + 1, end) + rest
        } else {
            rest
        }
    }
}

/// A label without values is the default.
pub open spec fn has_default(t: Seq<NodeView>, lo: int, hi: int) -> bool
    decreases hi - lo,
{
    lo < hi && {
        let end = node_end(t, lo, hi);
        t[lo].named && t[lo].kind == "switch_label"@ && named_texts(t, lo + 1, end).len() == 0 || has_default(t, end, hi)
    }
}

/// The text that a switch compares with its cases.
pub open spec fn subject_of(text: Seq<char>) -> Seq<char> {
    normalized(stripped(text, "()"@))
}

/// The condition that a case stands for.
pub open spec fn case_label(subject: Seq<char>, value: Seq<char>) -> Seq<char> {
    subject + " == "@ + value
}

/// The condition `lo..hi` comes down to the given one, among others.
pub open spec fn leaf_tests(t: Seq<NodeView>, lo: int, hi: int, label: Seq<char>) -> bool
    decreases hi - lo,
{
    if t[lo].kind == "parenthesized_expression"@ {
        match first_named(t, lo, hi) {
            Some((a, b)) => leaf_tests(t, a, b, label),
            None => label == normalized(t[lo].text),
        }
    } else if is_not(t, lo, hi) {
        match child_in_role(t, lo, hi, "operand"@) {
            Some((a, b)) => leaf_tests(t, a, b, label),
            None => label == normalized(t[lo].text),
        }
    } else if is_binary(t, lo, hi, "&&"@) || is_binary(t, lo, hi, "||"@) {
        match (child_in_role(t, lo, hi, "left"@), child_in_role(t, lo, hi, "right"@)) {
            (Some((a, b)), Some((c, d))) => leaf_tests(t, a, b, label) || leaf_tests(t, c, d, label),
            _ => label == normalized(t[lo].text),
        }
    } else {
        t[lo].kind != "true"@ && t[lo].kind != "false"@ && label == normalized(t[lo].text)
    }
}

/// One of the values makes the condition.
pub open spec fn value_tests(values: Seq<Seq<char>>, subject: Seq<char>, label: Seq<char>) -> bool {
    exists|i: int| 0 <= i < values.len() && case_label(subject, #[trigger] values[i]) == label
}

/// A group of cases among the siblings in a range tests the condition.
pub open spec fn cases_test(t: Seq<NodeView>, lo: int, hi: int, subject: Seq<char>, label: Seq<char>) -> bool
    decreases hi - lo,
{
    lo < hi && {
        let end = node_end(t, lo, hi);
        value_tests(label_values(t, lo + 1, end), subject, label) || cases_test(t, end, hi, subject, label)
    }
}

pub open spec fn is_switch(n: NodeView) -> bool {
    n.kind == "switch_expression"@ || n.kind == "switch_statement"@
}

/// The statement at `i` tests the condition itself.
pub open spec fn node_tests(t: Seq<NodeView>, i: int, hi: int, label: Seq<char>) -> bool {
    let end = node_end(t, i, hi);
    ||| t[i].kind == "if_statement"@ && match child_in_role(t, i, end, "condition"@) {
        Some((a, b)) => leaf_tests(t, a, b, label),
        None => false,
    }
    ||| is_switch(t[i]) && match (child_in_role(t, i, end, "condition"@), child_in_role(t, i, end, "body"@)) {
        (Some((a, _)), Some((c, d))) => cases_test(t, c + 1, d, subject_of(t[a].text), label),
        _ => false,
    }
}

/// The condition is tested somewhere in the range.
pub open spec fn tested_in(t: Seq<NodeView>, lo: int, hi: int, label: Seq<char>) -> bool {
    exists|i: int| lo <= i < hi && #[trigger] node_tests(t, i, hi, label)
}

impl SyntaxTree {
    pub fn is_statement(&self, i: usize) -> (r: bool)
        requires
            i < self@.len(),
        ensures
            r == is_stmt(self@[i as int]),
    {
        self.is_named(i) && !self.is_kind(i, "switch_label")
    }

    /// The first statement of a range.
    pub fn statement_from(&self, lo: usize, hi: usize) -> (r: usize)
        requires
            lo <= hi <= self@.len(),
        ensures
            r == stmt_at(self@, lo as int, hi as int),
            lo <= r <= hi,
    {
        let mut i: usize = lo;
        while i < hi
            invariant
                lo <= i <= hi <= self@.len(),
                first_stmt(self@, lo as int, hi as int) == first_stmt(self@, i as int, hi as int),
            decreases hi - i,
        {
            if self.is_statement(i) {
                return i;
            }
            i = self.end_of(i, hi);
        }
        hi
    }

    /// The last statement of a range.
    pub fn last_statement(&self, lo: usize, hi: usize) -> (r: Option<usize>)
        requires
            lo <= hi <= self@.len(),
        ensures
            match r {
                Some(p) => last_stmt(self@, lo as int, hi as int) == Some(p as int) && lo <= p < hi,
                None => last_stmt(self@, lo as int, hi as int) is None,
            },
    {
        let ghost t = self@;
        let mut last: Option<usize> = None;
        let mut i: usize = lo;
        while i < hi
            invariant
                lo <= i <= hi <= self@.len(),
                t == self@,
                last matches Some(p) ==> lo <= p < hi,
                last_stmt(t, lo as int, hi as int) == match last_stmt(t, i as int, hi as int) {
                    Some(p) => Some(p),
                    None => match last {
                        Some(p) => Some(p as int),
                        None => None,
                    },
                },
            decreases hi - i,
        {
            if self.is_statement(i) {
                last = Some(i);
            }
            i = self.end_of(i, hi);
        }
        last
    }

    /// Decides whether the method can be left inside a range.
    pub fn contains_exit(&self, lo: usize, hi: usize) -> (r: bool)
        requires
            lo <= hi <= self@.len(),
        ensures
            r == has_exit(self@, lo as int, hi as int),
    {
        let mut i: usize = lo;
        while i < hi
            invariant
                lo <= i <= hi <= self@.len(),
                forall|j: int| lo <= j < i ==> !#[trigger] is_exit(self@[j]),
            decreases hi - i,
        {
            if self.is_kind(i, "return_statement") || self.is_kind(i, "throw_statement") {
                assert(is_exit(self@[i as int]));
                return true;
            }
            i = i + 1;
        }
        false
    }

    /// Counts the breaks that leave the enclosing switch.
    pub fn count_breaks(&self, lo: usize, hi: usize) -> (r: usize)
        requires
            lo <= hi <= self@.len(),
        ensures
            r == breaks_in(self@, lo as int, hi as int),
            r <= hi - lo,
        decreases hi - lo,
    {
        if lo >= hi {
            return 0;
        }
        let end: usize = self.end_of(lo, hi);
        let here: usize = if self.is_kind(lo, "break_statement") {
            1
        } else if self.is_kind(lo, "switch_expression") || self.is_kind(lo, "switch_statement") || self.is_kind(
            lo,
            "while_statement",
        ) || self.is_kind(lo, "for_statement") || self.is_kind(lo, "enhanced_for_statement") || self.is_kind(
            lo,
            "do_statement",
        ) || self.is_kind(lo, "switch_label") {
            0
        } else {
            self.count_breaks(lo + 1, end)
        };
        here + self.count_breaks(end, hi)
    }

    /// The collapsed texts of the named siblings in a range.
    pub fn texts_of_named(&self, lo: usize, hi: usize) -> (r: Vec<String>)
        requires
            lo <= hi <= self@.len(),
        ensures
            texts(r@) == named_texts(self@, lo as int, hi as int),
    {
        let ghost t = self@;
        let ghost all = named_texts(t, lo as int, hi as int);
        let mut r: Vec<String> = Vec::new();
        let mut i: usize = lo;
        assert(texts(r@) + all =~= all);
        while i < hi
            invariant
                lo <= i <= hi <= self@.len(),
                t == self@,
                all == texts(r@) + named_texts(t, i as int, hi as int),
            decreases hi - i,
        {
            let end: usize = self.end_of(i, hi);
            if self.is_named(i) {
                let ghost before = texts(r@);
                let text = self.collapsed(i);
                let ghost x = text@;
                let ghost rest = named_texts(t, end as int, hi as int);
                r.push(text);
                assert(texts(r@) =~= before.push(x));
                assert(before + (seq![x] + rest) =~= before.push(x) + rest);
            }
            i = end;
        }
        assert(texts(r@) + Seq::<Seq<char>>::empty() =~= texts(r@));
        r
    }

    /// The values of the case labels among the siblings in a range, and
    /// whether one of them is the default.
    pub fn labels(&self, lo: usize, hi: usize) -> (r: (Vec<String>, bool))
        requires
            lo <= hi <= self@.len(),
        ensures
            texts(r.0@) == label_values(self@, lo as int, hi as int),
            r.1 == has_default(self@, lo as int, hi as int),
    {
        let ghost t = self@;
        let ghost all = label_values(t, lo as int, hi as int);
        let mut r: Vec<String> = Vec::new();
        let mut default: bool = false;
        let mut i: usize = lo;
        assert(texts(r@) + all =~= all);
        while i < hi
            invariant
                lo <= i <= hi <= self@.len(),
                t == self@,
                all == texts(r@) + label_values(t, i as int, hi as int),
                has_default(t, lo as int, hi as int) == (default || has_default(t, i as int, hi as int)),
            decreases hi - i,
        {
            let end: usize = self.end_of(i, hi);
            if self.is_named(i) && self.is_kind(i, "switch_label") {
                let ghost before = r@;
                let mut values = self.texts_of_named(i + 1, end);
                let ghost v = values@;
                assert(texts(v).len() == v.len());
                if values.len() == 0 {
                    default = true;
                }
                r.append(&mut values);
                assert(r@ =~= before + v);
                assert(texts(r@) =~= texts(before) + texts(v));
                assert(texts(before) + (texts(v) + label_values(t, end as int, hi as int)) =~= texts(r@)
                    + label_values(t, end as int, hi as int));
            }
            i = end;
        }
        assert(texts(r@) + Seq::<Seq<char>>::empty() =~= texts(r@));
        (r, default)
    }

    /// The text that a switch compares with its cases.
    pub fn subject(&self, i: usize) -> (r: String)
        requires
            i < self@.len(),
        ensures
            r@ == subject_of(self@[i as int].text),
    {
        normalize(strip(chars_of(self.text(i)).as_slice(), "()"))
    }

    /// Decides whether the condition `lo..hi` comes down to the given one.
    fn leaf_is(&self, lo: usize, hi: usize, label: &str) -> (r: bool)
        requires
            lo < hi <= self@.len(),
        ensures
            r == leaf_tests(self@, lo as int, hi as int, label@),
        decreases hi - lo,
    {
        let operator = self.role_text(lo, hi, "operator");
        let binary: bool = self.is_kind(lo, "binary_expression");
        if self.is_kind(lo, "parenthesized_expression") {
            match self.first_named_child(lo, hi) {
                Some((a, b)) => {
                    return self.leaf_is(a, b, label);
                },
                None => {},
            }
        } else if self.is_kind(lo, "unary_expression") && same(operator.as_str(), "!") {
            match self.child(lo, hi, "operand") {
                Some((a, b)) => {
                    return self.leaf_is(a, b, label);
                },
                None => {},
            }
        } else if binary && same(operator.as_str(), "&&") || binary && same(operator.as_str(), "||") {
            match (self.child(lo, hi, "left"), self.child(lo, hi, "right")) {
                (Some((a, b)), Some((c, d))) => {
                    return self.leaf_is(a, b, label) || self.leaf_is(c, d, label);
                },
                _ => {},
            }
        } else if self.is_kind(lo, "true") || self.is_kind(lo, "false") {
            return false;
        }
        same(self.collapsed(lo).as_str(), label)
    }

    /// Decides whether a switch tests the condition.
    fn case_is(&self, lo: usize, hi: usize, subject: &str, label: &str) -> (r: bool)
        requires
            lo <= hi <= self@.len(),
        ensures
            r == cases_test(self@, lo as int, hi as int, subject@, label@),
        decreases hi - lo,
    {
        if lo >= hi {
            return false;
        }
        let end: usize = self.end_of(lo, hi);
        let (values, _) = self.labels(lo + 1, end);
        let ghost all = label_values(self@, lo + 1, end as int);
        let mut i: usize = 0;
        while i < values.len()
            invariant
                i <= values@.len(),
                lo < hi,
                end == node_end(self@, lo as int, hi as int),
                all == label_values(self@, lo + 1, end as int),
                all == texts(values@),
                forall|j: int| 0 <= j < i ==> case_label(subject@, #[trigger] all[j]) != label@,
            decreases values.len() - i,
        {
            let mut own = subject.to_owned();
            own.append(" == ");
            own.append(values[i].as_str());
            assert(all[i as int] == values@[i as int]@);
            if same(own.as_str(), label) {
                assert(case_label(subject@, all[i as int]) == label@);
                assert(value_tests(all, subject@, label@));
                return true;
            }
            i = i + 1;
        }
        assert(!value_tests(all, subject@, label@));
        self.case_is(end, hi, subject, label)
    }

    fn node_is(&self, i: usize, hi: usize, label: &str) -> (r: bool)
        requires
            i < hi <= self@.len(),
        ensures
            r == node_tests(self@, i as int, hi as int, label@),
    {
        let end: usize = self.end_of(i, hi);
        if self.is_kind(i, "if_statement") {
            match self.child(i, end, "condition") {
                Some((a, b)) => {
                    if self.leaf_is(a, b, label) {
                        return true;
                    }
                },
                None => {},
            }
        }
        if self.is_kind(i, "switch_expression") || self.is_kind(i, "switch_statement") {
            match (self.child(i, end, "condition"), self.child(i, end, "body")) {
                (Some((a, _)), Some((c, d))) => self.case_is(c + 1, d, self.subject(a).as_str(), label),
                _ => false,
            }
        } else {
            false
        }
    }

    /// Decides whether the condition is tested somewhere in a range.
    pub fn tests(&self, lo: usize, hi: usize, label: &str) -> (r: bool)
        requires
            lo <= hi <= self@.len(),
        ensures
            r == tested_in(self@, lo as int, hi as int, label@),
    {
        let mut i: usize = lo;
        while i < hi
            invariant
                lo <= i <= hi <= self@.len(),
                forall|j: int| lo <= j < i ==> !#[trigger] node_tests(self@, j, hi as int, label@),
            decreases hi - i,
        {
            if self.node_is(i, hi, label) {
                assert(node_tests(self@, i as int, hi as int, label@));
                return true;
            }
            i = i + 1;
        }
        false
    }
}

} // verus!
