//! A `switch` statement as a chain of exclusive cases.

use vstd::prelude::*;

use crate::lift::switches::{
    breaks_in, case_label, has_default, is_exit, label_values, last_stmt, stmt_at, subject_of,
};
use crate::lift::syntax::{child_in_role, node_end, NodeView, SyntaxTree};
use crate::text::{copy_texts, texts};

verus! {

/// A group of cases: its values, whether it is the default, and the range of
/// its statements. A rule (`case 1 -> ..`) never falls through.
#[derive(Debug)]
pub struct CaseGroup {
    pub values: Vec<String>,
    pub is_default: bool,
    pub lo: usize,
    pub hi: usize,
    pub is_rule: bool,
}

#[verifier::ext_equal]
pub struct GroupView {
    pub values: Seq<Seq<char>>,
    pub is_default: bool,
    pub lo: int,
    pub hi: int,
    pub is_rule: bool,
}

impl View for CaseGroup {
    type V = GroupView;

    open spec fn view(&self) -> GroupView {
        GroupView {
            values: texts(self.values@),
            is_default: self.is_default,
            lo: self.lo as int,
            hi: self.hi as int,
            is_rule: self.is_rule,
        }
    }
}

/// One case: the condition it stands for and the range of its statements.
#[derive(Debug)]
pub struct SwitchArm {
    pub label: String,
    pub lo: usize,
    pub hi: usize,
}

#[verifier::ext_equal]
pub struct ArmView {
    pub label: Seq<char>,
    pub lo: int,
    pub hi: int,
}

impl View for SwitchArm {
    type V = ArmView;

    open spec fn view(&self) -> ArmView {
        ArmView { label: self.label@, lo: self.lo as int, hi: self.hi as int }
    }
}

/// The cases of a switch in order, and the statements when no case holds.
#[derive(Debug)]
pub struct SwitchModel {
    pub arms: Vec<SwitchArm>,
    pub default: Option<(usize, usize)>,
}

#[verifier::ext_equal]
pub struct SwitchView {
    pub arms: Seq<ArmView>,
    pub default: Option<(int, int)>,
}

impl View for SwitchModel {
    type V = SwitchView;

    open spec fn view(&self) -> SwitchView {
        SwitchView {
            arms: self.arms@.map_values(|a: SwitchArm| a@),
            default: crate::lift::syntax::span_of(self.default),
        }
    }
}

pub open spec fn is_group(n: NodeView) -> bool {
    n.named && (n.kind == "switch_block_statement_group"@ || n.kind == "switch_rule"@)
}

pub open spec fn group_of(t: Seq<NodeView>, lo: int, hi: int) -> GroupView {
    GroupView {
        values: label_values(t, lo + 1, hi),
        is_default: has_default(t, lo + 1, hi),
        lo: lo + 1,
        hi,
        is_rule: t[lo].kind == "switch_rule"@,
    }
}

/// The groups among the siblings in a range; none at all when one of them has
/// no label.
pub open spec fn groups_in(t: Seq<NodeView>, lo: int, hi: int) -> Option<Seq<GroupView>>
    decreases hi - lo,
{
    if lo >= hi {
        Some(Seq::empty())
    } else {
        let end = node_end(t, lo, hi);
        let g = group_of(t, lo, end);
        match groups_in(t, end, hi) {
            None => None,
            Some(rest) => if !is_group(t[lo]) {
                Some(rest)
            } else if g.values.len() == 0 && !g.is_default {
                None
            } else {
                Some(seq![g] + rest)
            },
        }
    }
}

/// Labels without statements of their own join the next group.
pub open spec fn stacked(
    t: Seq<NodeView>,
    groups: Seq<GroupView>,
    i: int,
    values: Seq<Seq<char>>,
    is_default: bool,
) -> Seq<GroupView>
    decreases groups.len() - i,
{
    if i >= groups.len() {
        Seq::empty()
    } else {
        let g = groups[i];
        if !g.is_rule && stmt_at(t, g.lo, g.hi) >= g.hi && i != groups.len() - 1 {
            stacked(t, groups, i + 1, values + g.values, is_default || g.is_default)
        } else {
            seq![GroupView { values: values + g.values, is_default: is_default || g.is_default, ..g }] + stacked(
                t,
                groups,
                i + 1,
                Seq::empty(),
                false,
            )
        }
    }
}

pub open spec fn is_break(n: NodeView) -> bool {
    n.kind == "break_statement"@
}

/// A group without its final break. There is none where a break can come
/// earlier, or where the group falls into the next one.
pub open spec fn closed_group(t: Seq<NodeView>, g: GroupView, is_last: bool) -> Option<GroupView> {
    let breaks = breaks_in(t, g.lo, g.hi);
    if g.is_rule {
        Some(g)
    } else {
        match last_stmt(t, g.lo, g.hi) {
            Some(p) => if is_break(t[p]) {
                if breaks > 1 {
                    None
                } else {
                    Some(GroupView { hi: p, ..g })
                }
            } else if breaks > 0 || !is_exit(t[p]) && !is_last {
                None
            } else {
                Some(g)
            },
            None => if breaks > 0 || !is_last {
                None
            } else {
                Some(g)
            },
        }
    }
}

/// The first `n` groups without their final breaks.
pub open spec fn closed_groups(t: Seq<NodeView>, groups: Seq<GroupView>, n: int) -> Option<Seq<GroupView>>
    decreases n,
{
    if n <= 0 {
        Some(Seq::empty())
    } else {
        match (closed_groups(t, groups, n - 1), closed_group(t, groups[n - 1], n == groups.len())) {
            (Some(before), Some(g)) => Some(before.push(g)),
            _ => None,
        }
    }
}

/// The cases of a group.
pub open spec fn group_arms(subject: Seq<char>, g: GroupView) -> Seq<ArmView> {
    g.values.map_values(|v: Seq<char>| ArmView { label: case_label(subject, v), lo: g.lo, hi: g.hi })
}

/// The cases of the first `n` groups.
pub open spec fn arms_of(subject: Seq<char>, groups: Seq<GroupView>, n: int) -> Seq<ArmView>
    decreases n,
{
    if n <= 0 {
        Seq::empty()
    } else {
        arms_of(subject, groups, n - 1) + group_arms(subject, groups[n - 1])
    }
}

/// The statements of the first default group among the first `n`.
pub open spec fn default_of(groups: Seq<GroupView>, n: int) -> Option<(int, int)>
    decreases n,
{
    if n <= 0 {
        None
    } else {
        match default_of(groups, n - 1) {
            Some(d) => Some(d),
            None => if groups[n - 1].is_default {
                Some((groups[n - 1].lo, groups[n - 1].hi))
            } else {
                None
            },
        }
    }
}

/// The switch `lo..hi` as a chain of cases; none when its groups run into
/// each other or can be left half-way.
pub open spec fn switch_model(t: Seq<NodeView>, lo: int, hi: int) -> Option<SwitchView> {
    match (child_in_role(t, lo, hi, "condition"@), child_in_role(t, lo, hi, "body"@)) {
        (Some((a, _)), Some((c, d))) => match groups_in(t, c + 1, d) {
            Some(raw) => if raw.len() == 0 {
                None
            } else {
                let merged = stacked(t, raw, 0, Seq::empty(), false);
                match closed_groups(t, merged, merged.len() as int) {
                    Some(groups) => Some(
                        SwitchView {
                            arms: arms_of(subject_of(t[a].text), groups, groups.len() as int),
                            default: default_of(groups, groups.len() as int),
                        },
                    ),
                    None => None,
                }
            },
            None => None,
        },
        _ => None,
    }
}

pub open spec fn group_views(v: Seq<CaseGroup>) -> Seq<GroupView> {
    v.map_values(|g: CaseGroup| g@)
}

pub open spec fn arm_views(v: Seq<SwitchArm>) -> Seq<ArmView> {
    v.map_values(|a: SwitchArm| a@)
}

/// Every group lies inside a range.
pub open spec fn groups_inside(groups: Seq<CaseGroup>, lo: int, hi: int) -> bool {
    forall|i: int| 0 <= i < groups.len() ==> lo < (#[trigger] groups[i]).lo <= groups[i].hi <= hi
}

fn read_groups(tree: &SyntaxTree, lo: usize, hi: usize) -> (r: Option<Vec<CaseGroup>>)
    requires
        lo <= hi <= tree@.len(),
    ensures
        match r {
            Some(v) => groups_in(tree@, lo as int, hi as int) == Some(group_views(v@)) && groups_inside(
                v@,
                lo as int,
                hi as int,
            ),
            None => groups_in(tree@, lo as int, hi as int) is None,
        },
{
    let ghost t = tree@;
    let ghost all = groups_in(t, lo as int, hi as int);
    let mut r: Vec<CaseGroup> = Vec::new();
    let mut i: usize = lo;
    proof {
        if let Some(v) = all {
            assert(group_views(r@) + v =~= v);
        }
    }
    while i < hi
        invariant
            lo <= i <= hi <= tree@.len(),
            t == tree@,
            all == groups_in(t, lo as int, hi as int),
            groups_inside(r@, lo as int, hi as int),
            match groups_in(t, i as int, hi as int) {
                Some(rest) => all == Some(group_views(r@) + rest),
                None => all is None,
            },
        decreases hi - i,
    {
        let end: usize = tree.end_of(i, hi);
        let ghost rest = groups_in(t, end as int, hi as int);
        let rule: bool = tree.is_kind(i, "switch_rule");
        if tree.is_named(i) && (tree.is_kind(i, "switch_block_statement_group") || rule) {
            let (values, is_default) = tree.labels(i + 1, end);
            assert(texts(values@).len() == values@.len());
            if values.len() == 0 && !is_default {
                return None;
            }
            let ghost before = group_views(r@);
            let g = CaseGroup { values, is_default, lo: i + 1, hi: end, is_rule: rule };
            let ghost gv = g@;
            assert(gv == group_of(t, i as int, end as int));
            r.push(g);
            proof {
                assert(group_views(r@) =~= before.push(gv));
                if let Some(v) = rest {
                    assert(before + (seq![gv] + v) =~= before.push(gv) + v);
                }
            }
        }
        i = end;
    }
    assert(group_views(r@) + Seq::<GroupView>::empty() =~= group_views(r@));
    Some(r)
}

fn stack(tree: &SyntaxTree, groups: Vec<CaseGroup>, Ghost(lo): Ghost<int>, Ghost(hi): Ghost<int>) -> (r: Vec<CaseGroup>)
    requires
        groups_inside(groups@, lo, hi),
        hi <= tree@.len(),
    ensures
        group_views(r@) == stacked(tree@, group_views(groups@), 0, Seq::empty(), false),
        groups_inside(r@, lo, hi),
{
    let ghost t = tree@;
    let ghost gs = group_views(groups@);
    let ghost all = stacked(t, gs, 0, Seq::empty(), false);
    let mut r: Vec<CaseGroup> = Vec::new();
    let mut values: Vec<String> = Vec::new();
    let mut default: bool = false;
    let mut i: usize = 0;
    assert(texts(values@) =~= Seq::empty());
    assert(group_views(r@) + all =~= all);
    while i < groups.len()
        invariant
            t == tree@,
            hi <= t.len(),
            gs == group_views(groups@),
            groups_inside(groups@, lo, hi),
            groups_inside(r@, lo, hi),
            i <= groups@.len(),
            all == group_views(r@) + stacked(t, gs, i as int, texts(values@), default),
        decreases groups.len() - i,
    {
        let g = &groups[i];
        assert(gs[i as int] == g@);
        let ghost pending = texts(values@);
        let ghost before_values = values@;
        let mut own = copy_texts(g.values.as_slice());
        let ghost o = own@;
        values.append(&mut own);
        assert(values@ =~= before_values + o);
        assert(texts(values@) =~= pending + g@.values);
        let is_default: bool = default || g.is_default;
        let empty: bool = tree.statement_from(g.lo, g.hi) >= g.hi;
        if !g.is_rule && empty && i != groups.len() - 1 {
            default = is_default;
        } else {
            let ghost before = group_views(r@);
            let ghost tv = texts(values@);
            let merged = CaseGroup { values, is_default, lo: g.lo, hi: g.hi, is_rule: g.is_rule };
            let ghost mv = merged@;
            assert(mv =~= GroupView { values: tv, is_default, ..g@ });
            r.push(merged);
            values = Vec::new();
            default = false;
            proof {
                assert(texts(values@) =~= Seq::empty());
                let rest = stacked(t, gs, i + 1, Seq::empty(), false);
                assert(group_views(r@) =~= before.push(mv));
                assert(before + (seq![mv] + rest) =~= before.push(mv) + rest);
            }
        }
        i = i + 1;
    }
    assert(group_views(r@) + Seq::<GroupView>::empty() =~= group_views(r@));
    r
}

/// Takes the final break off a group.
fn close(tree: &SyntaxTree, g: &CaseGroup, is_last: bool) -> (r: Option<CaseGroup>)
    requires
        g.lo <= g.hi <= tree@.len(),
    ensures
        match r {
            Some(c) => closed_group(tree@, g@, is_last) == Some(c@) && g.lo == c.lo <= c.hi <= g.hi,
            None => closed_group(tree@, g@, is_last) is None,
        },
{
    let mut hi: usize = g.hi;
    if !g.is_rule {
        let breaks: usize = tree.count_breaks(g.lo, g.hi);
        match tree.last_statement(g.lo, g.hi) {
            Some(p) => {
                if tree.is_kind(p, "break_statement") {
                    if breaks > 1 {
                        return None;
                    }
                    hi = p;
                } else {
                    let exits: bool = tree.is_kind(p, "return_statement") || tree.is_kind(p, "throw_statement");
                    if breaks > 0 || !exits && !is_last {
                        return None;
                    }
                }
            },
            None => {
                if breaks > 0 || !is_last {
                    return None;
                }
            },
        }
    }
    let c = CaseGroup {
        values: copy_texts(g.values.as_slice()),
        is_default: g.is_default,
        lo: g.lo,
        hi,
        is_rule: g.is_rule,
    };
    assert(c@ =~= GroupView { hi: hi as int, ..g@ });
    assert(g@ =~= GroupView { hi: g.hi as int, ..g@ });
    Some(c)
}

fn close_all(tree: &SyntaxTree, groups: &Vec<CaseGroup>, Ghost(lo): Ghost<int>, Ghost(hi): Ghost<int>) -> (r: Option<
    Vec<CaseGroup>,
>)
    requires
        groups_inside(groups@, lo, hi),
        hi <= tree@.len(),
    ensures
        match r {
            Some(v) => closed_groups(tree@, group_views(groups@), groups@.len() as int) == Some(group_views(v@))
                && groups_inside(v@, lo, hi),
            None => closed_groups(tree@, group_views(groups@), groups@.len() as int) is None,
        },
{
    let ghost t = tree@;
    let ghost gs = group_views(groups@);
    let mut r: Vec<CaseGroup> = Vec::new();
    let mut i: usize = 0;
    assert(group_views(r@) =~= Seq::empty());
    while i < groups.len()
        invariant
            t == tree@,
            hi <= t.len(),
            gs == group_views(groups@),
            groups_inside(groups@, lo, hi),
            groups_inside(r@, lo, hi),
            i <= groups@.len(),
            closed_groups(t, gs, i as int) == Some(group_views(r@)),
        decreases groups.len() - i,
    {
        assert(gs[i as int] == groups@[i as int]@);
        match close(tree, &groups[i], i + 1 == groups.len()) {
            Some(c) => {
                let ghost before = group_views(r@);
                let ghost cv = c@;
                r.push(c);
                assert(group_views(r@) =~= before.push(cv));
            },
            None => {
                proof {
                    lemma_none_later(t, gs, i + 1);
                }
                return None;
            },
        }
        i = i + 1;
    }
    Some(r)
}

proof fn lemma_none_later(t: Seq<NodeView>, groups: Seq<GroupView>, n: int)
    requires
        0 <= n <= groups.len(),
        closed_groups(t, groups, n) is None,
    ensures
        closed_groups(t, groups, groups.len() as int) is None,
    decreases groups.len() - n,
{
    if n < groups.len() {
        lemma_none_later(t, groups, n + 1);
    }
}

/// Every case lies inside a range.
pub open spec fn arms_inside(arms: Seq<SwitchArm>, lo: int, hi: int) -> bool {
    forall|i: int| 0 <= i < arms.len() ==> lo < (#[trigger] arms[i]).lo <= arms[i].hi <= hi
}

fn list_arms(subject: &str, groups: &Vec<CaseGroup>, Ghost(lo): Ghost<int>, Ghost(hi): Ghost<int>) -> (r: Vec<SwitchArm>)
    requires
        groups_inside(groups@, lo, hi),
    ensures
        arm_views(r@) == arms_of(subject@, group_views(groups@), groups@.len() as int),
        arms_inside(r@, lo, hi),
{
    let ghost gs = group_views(groups@);
    let mut r: Vec<SwitchArm> = Vec::new();
    let mut i: usize = 0;
    assert(arm_views(r@) =~= arms_of(subject@, gs, 0));
    while i < groups.len()
        invariant
            gs == group_views(groups@),
            groups_inside(groups@, lo, hi),
            i <= groups@.len(),
            arm_views(r@) == arms_of(subject@, gs, i as int),
            arms_inside(r@, lo, hi),
        decreases groups.len() - i,
    {
        let g = &groups[i];
        assert(gs[i as int] == g@);
        let ghost before = arm_views(r@);
        let ghost added = group_arms(subject@, g@);
        let mut k: usize = 0;
        assert(arm_views(r@) =~= before + added.take(0));
        while k < g.values.len()
            invariant
                lo < g.lo <= g.hi <= hi,
                added == group_arms(subject@, g@),
                k <= g.values@.len(),
                arm_views(r@) == before + added.take(k as int),
                arms_inside(r@, lo, hi),
            decreases g.values.len() - k,
        {
            let ghost now = arm_views(r@);
            let mut label = subject.to_owned();
            label.append(" == ");
            label.append(g.values[k].as_str());
            let arm = SwitchArm { label, lo: g.lo, hi: g.hi };
            let ghost av = arm@;
            assert(g@.values[k as int] == g.values@[k as int]@);
            assert(av == added[k as int]);
            r.push(arm);
            k = k + 1;
            assert(arm_views(r@) =~= now.push(av));
            assert(arm_views(r@) =~= before + added.take(k as int));
        }
        assert(added.take(k as int) =~= added);
        i = i + 1;
    }
    r
}

fn find_default(groups: &Vec<CaseGroup>, Ghost(lo): Ghost<int>, Ghost(hi): Ghost<int>) -> (r: Option<(usize, usize)>)
    requires
        groups_inside(groups@, lo, hi),
    ensures
        crate::lift::syntax::span_of(r) == default_of(group_views(groups@), groups@.len() as int),
        r matches Some((a, b)) ==> lo < a <= b <= hi,
{
    let ghost gs = group_views(groups@);
    let mut i: usize = 0;
    while i < groups.len()
        invariant
            gs == group_views(groups@),
            groups_inside(groups@, lo, hi),
            i <= groups@.len(),
            default_of(gs, i as int) is None,
        decreases groups.len() - i,
    {
        assert(gs[i as int] == groups@[i as int]@);
        if groups[i].is_default {
            proof {
                lemma_default_later(gs, i + 1);
            }
            return Some((groups[i].lo, groups[i].hi));
        }
        i = i + 1;
    }
    None
}

proof fn lemma_default_later(groups: Seq<GroupView>, n: int)
    requires
        0 <= n <= groups.len(),
        default_of(groups, n) is Some,
    ensures
        default_of(groups, groups.len() as int) == default_of(groups, n),
    decreases groups.len() - n,
{
    if n < groups.len() {
        lemma_default_later(groups, n + 1);
    }
}

/// Reads the switch `lo..hi`.
pub fn read_switch(tree: &SyntaxTree, lo: usize, hi: usize) -> (r: Option<SwitchModel>)
    requires
        lo < hi <= tree@.len(),
    ensures
        match r {
            Some(m) => {
                &&& switch_model(tree@, lo as int, hi as int) == Some(m@)
                &&& arms_inside(m.arms@, lo as int, hi as int)
                &&& m.default matches Some((a, b)) ==> lo < a <= b <= hi
            },
            None => switch_model(tree@, lo as int, hi as int) is None,
        },
{
    match (tree.child(lo, hi, "condition"), tree.child(lo, hi, "body")) {
        (Some((a, _)), Some((c, d))) => {
            let raw = match read_groups(tree, c + 1, d) {
                Some(raw) => raw,
                None => {
                    return None;
                },
            };
            assert(group_views(raw@).len() == raw@.len());
            if raw.len() == 0 {
                return None;
            }
            let merged = stack(tree, raw, Ghost(lo as int), Ghost(hi as int));
            let ghost mg = group_views(merged@);
            assert(mg.len() == merged@.len());
            let groups = match close_all(tree, &merged, Ghost(lo as int), Ghost(hi as int)) {
                Some(groups) => groups,
                None => {
                    return None;
                },
            };
            assert(group_views(groups@).len() == groups@.len());
            let subject = tree.subject(a);
            let arms = list_arms(subject.as_str(), &groups, Ghost(lo as int), Ghost(hi as int));
            let default = find_default(&groups, Ghost(lo as int), Ghost(hi as int));
            Some(SwitchModel { arms, default })
        },
        _ => None,
    }
}

} // verus!
