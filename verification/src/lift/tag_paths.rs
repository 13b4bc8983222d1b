//! Render paths through nested conditionals.

use vstd::prelude::*;

use crate::lift::tag_tree::{arms_view, body_view, Arms, ArmsView, Body, BodyView};
use crate::logic::MAX_VARIABLES;
use crate::text::{copy_texts, decimal, decimal_text, first_index, position, texts};

verus! {

pub const MAX_PATHS: usize = 512;

/// One enumerated render path: condition assignments + rendered summaries.
#[derive(Debug)]
pub struct RenderPath {
    pub conds: Vec<(usize, bool)>,
    pub rendered: Vec<String>,
}

/// A render path as mathematics.
#[verifier::ext_equal]
pub struct PathView {
    pub conds: Seq<(usize, bool)>,
    pub rendered: Seq<Seq<char>>,
}

impl View for RenderPath {
    type V = PathView;

    open spec fn view(&self) -> PathView {
        PathView { conds: self.conds@, rendered: texts(self.rendered@) }
    }
}

/// The conditions met so far and the paths completed so far.
#[derive(Debug)]
pub struct PathSet {
    pub atoms: Vec<String>,
    pub paths: Vec<RenderPath>,
}

/// A path set as mathematics.
#[verifier::ext_equal]
pub struct PathSetView {
    pub atoms: Seq<Seq<char>>,
    pub paths: Seq<PathView>,
}

impl View for PathSet {
    type V = PathSetView;

    open spec fn view(&self) -> PathSetView {
        PathSetView { atoms: texts(self.atoms@), paths: self.paths@.map_values(|p: RenderPath| p@) }
    }
}

/// The number of a condition, which is added when it is new, up to a number of
/// conditions.
pub open spec fn intern(cap: usize, atoms: Seq<Seq<char>>, label: Seq<char>) -> Result<
    (Seq<Seq<char>>, usize),
    Seq<char>,
> {
    match first_index(atoms, label) {
        Some(i) => Ok((atoms, i as usize)),
        None => if atoms.len() >= cap {
            Err("more than "@ + decimal_text(cap as nat) + " distinct conditions"@)
        } else {
            Ok((atoms.push(label), atoms.len() as usize))
        },
    }
}

/// The value that a path pins a condition to.
pub open spec fn pinned(conds: Seq<(usize, bool)>, id: usize) -> Option<bool>
    decreases conds.len(),
{
    if conds.len() == 0 {
        None
    } else {
        match pinned(conds.drop_last(), id) {
            Some(v) => Some(v),
            None => if conds.last().0 == id {
                Some(conds.last().1)
            } else {
                None
            },
        }
    }
}

/// Pins a condition; nothing is left of the path when it is pinned to the
/// opposite value already.
pub open spec fn assign(
    cap: usize,
    atoms: Seq<Seq<char>>,
    conds: Seq<(usize, bool)>,
    label: Seq<char>,
    value: bool,
) -> Result<
    (Seq<Seq<char>>, Option<Seq<(usize, bool)>>),
    Seq<char>,
> {
    match intern(cap, atoms, label) {
        Err(e) => Err(e),
        Ok((atoms, id)) => match pinned(conds, id) {
            Some(v) => Ok(
                (
                    atoms,
                    if v == value {
                        Some(conds)
                    } else {
                        None
                    },
                ),
            ),
            None => Ok((atoms, Some(conds.push((id, value))))),
        },
    }
}

/// Pins conditions `i` onwards to false, one after the other, as long as the path is feasible.
pub open spec fn assign_false(
    cap: usize,
    atoms: Seq<Seq<char>>,
    conds: Seq<(usize, bool)>,
    labels: Seq<Seq<char>>,
    i: int,
) -> Result<(Seq<Seq<char>>, Option<Seq<(usize, bool)>>), Seq<char>>
    decreases labels.len() - i,
{
    if i < 0 || i >= labels.len() {
        Ok((atoms, Some(conds)))
    } else {
        match assign(cap, atoms, conds, labels[i], false) {
            Err(e) => Err(e),
            Ok((atoms, None)) => Ok((atoms, None)),
            Ok((atoms, Some(conds))) => assign_false(cap, atoms, conds, labels, i + 1),
        }
    }
}

/// The size of a body, for termination.
pub open spec fn body_size(b: BodyView) -> nat
    decreases b,
{
    match b {
        BodyView::End => 1,
        BodyView::Text(_, rest) => 1 + body_size(*rest),
        BodyView::Cond(arms, rest) => 1 + arms_size(*arms) + body_size(*rest),
    }
}

pub open spec fn arms_size(a: ArmsView) -> nat
    decreases a,
{
    match a {
        ArmsView::Otherwise(b) => 1 + body_size(*b),
        ArmsView::When(_, b, more) => 1 + body_size(*b) + arms_size(*more),
    }
}

/// All paths through a body, from one partial path on.
pub open spec fn walk(
    body: BodyView,
    set: PathSetView,
    conds: Seq<(usize, bool)>,
    rendered: Seq<Seq<char>>,
) -> Result<PathSetView, Seq<char>>
    decreases body_size(body), 0nat,
{
    if set.paths.len() > MAX_PATHS {
        Err("more than "@ + decimal_text(MAX_PATHS as nat) + " paths"@)
    } else {
        match body {
            BodyView::End => Ok(
                PathSetView { atoms: set.atoms, paths: set.paths.push(PathView { conds, rendered }) },
            ),
            BodyView::Text(t, rest) => walk(*rest, set, conds, rendered.push(t)),
            BodyView::Cond(arms, rest) => walk_arms(*arms, *rest, set, conds, rendered, Seq::empty()),
        }
    }
}

/// The branches in order: each takes the earlier tests to be false.
pub open spec fn walk_arms(
    arms: ArmsView,
    rest: BodyView,
    set: PathSetView,
    conds: Seq<(usize, bool)>,
    rendered: Seq<Seq<char>>,
    prior: Seq<Seq<char>>,
) -> Result<PathSetView, Seq<char>>
    decreases arms_size(arms) + body_size(rest), 0nat,
{
    match assign_false(MAX_VARIABLES, set.atoms, conds, prior, 0) {
        Err(e) => Err(e),
        Ok((atoms, open)) => {
            let set = PathSetView { atoms, paths: set.paths };
            match arms {
                ArmsView::Otherwise(body) => match open {
                    None => Ok(set),
                    Some(conds) => walk_into(*body, rest, set, conds, rendered),
                },
                ArmsView::When(test, body, more) => {
                    let taken = match open {
                        None => Ok(set),
                        Some(c) => match assign(MAX_VARIABLES, set.atoms, c, test, true) {
                            Err(e) => Err(e),
                            Ok((atoms, None)) => Ok(PathSetView { atoms, paths: set.paths }),
                            Ok((atoms, Some(c))) => walk_into(
                                *body,
                                rest,
                                PathSetView { atoms, paths: set.paths },
                                c,
                                rendered,
                            ),
                        },
                    };
                    match taken {
                        Err(e) => Err(e),
                        Ok(set) => walk_arms(*more, rest, set, conds, rendered, prior.push(test)),
                    }
                },
            }
        },
    }
}

/// The paths through a conditional body, each continued behind it.
pub open spec fn walk_into(
    body: BodyView,
    rest: BodyView,
    set: PathSetView,
    conds: Seq<(usize, bool)>,
    rendered: Seq<Seq<char>>,
) -> Result<PathSetView, Seq<char>>
    decreases body_size(body) + body_size(rest), 0nat,
{
    match walk(body, PathSetView { atoms: set.atoms, paths: Seq::empty() }, conds, rendered) {
        Err(e) => Err(e),
        Ok(sub) => walk_each(rest, PathSetView { atoms: sub.atoms, paths: set.paths }, sub.paths, 0),
    }
}

/// Paths `i` onwards, each continued through `rest`.
pub open spec fn walk_each(rest: BodyView, set: PathSetView, paths: Seq<PathView>, i: int) -> Result<
    PathSetView,
    Seq<char>,
>
    decreases body_size(rest), 1 + paths.len() - i,
{
    if i < 0 || i >= paths.len() {
        Ok(set)
    } else {
        match walk(rest, set, paths[i].conds, paths[i].rendered) {
            Err(e) => Err(e),
            Ok(set) => walk_each(rest, set, paths, i + 1),
        }
    }
}

pub open spec fn paths_result(r: Result<PathSet, String>) -> Result<PathSetView, Seq<char>> {
    match r {
        Ok(set) => Ok(set@),
        Err(e) => Err(e@),
    }
}

pub fn copy_conds(conds: &Vec<(usize, bool)>) -> (r: Vec<(usize, bool)>)
    ensures
        r@ == conds@,
{
    let mut r: Vec<(usize, bool)> = Vec::new();
    let mut i: usize = 0;
    while i < conds.len()
        invariant
            i <= conds.len(),
            r@ == conds@.take(i as int),
        decreases conds.len() - i,
    {
        let (id, value) = conds[i];
        r.push((id, value));
        i = i + 1;
        assert(r@ =~= conds@.take(i as int));
    }
    assert(r@ =~= conds@);
    r
}

pub fn too_many(max: usize, what: &str) -> (r: String)
    ensures
        r@ == "more than "@ + decimal_text(max as nat) + what@,
{
    let mut r = "more than ".to_owned();
    r.append(decimal(max as u128).as_str());
    r.append(what);
    r
}

pub fn atom_id(cap: usize, atoms: &mut Vec<String>, label: &str) -> (r: Result<usize, String>)
    ensures
        match r {
            Ok(id) => intern(cap, texts(old(atoms)@), label@) == Ok::<(Seq<Seq<char>>, usize), Seq<char>>(
                (texts(final(atoms)@), id),
            ),
            Err(e) => intern(cap, texts(old(atoms)@), label@) == Err::<(Seq<Seq<char>>, usize), Seq<char>>(e@),
        },
{
    match position(atoms.as_slice(), label) {
        Some(i) => Ok(i),
        None => {
            if atoms.len() >= cap {
                return Err(too_many(cap, " distinct conditions"));
            }
            let id: usize = atoms.len();
            let ghost before = texts(atoms@);
            atoms.push(label.to_owned());
            assert(texts(atoms@) =~= before.push(label@));
            Ok(id)
        },
    }
}

pub fn find_pinned(conds: &Vec<(usize, bool)>, id: usize) -> (r: Option<bool>)
    ensures
        r == pinned(conds@, id),
{
    let mut i: usize = 0;
    while i < conds.len()
        invariant
            i <= conds.len(),
            pinned(conds@.take(i as int), id) is None,
        decreases conds.len() - i,
    {
        let (a, v) = conds[i];
        assert(conds@.take(i + 1).drop_last() =~= conds@.take(i as int));
        if a == id {
            proof {
                lemma_pinned_prefix(conds@, id, i + 1);
            }
            return Some(v);
        }
        i = i + 1;
    }
    assert(conds@.take(i as int) =~= conds@);
    None
}

proof fn lemma_pinned_prefix(conds: Seq<(usize, bool)>, id: usize, i: int)
    requires
        0 <= i <= conds.len(),
        pinned(conds.take(i), id) is Some,
    ensures
        pinned(conds, id) == pinned(conds.take(i), id),
    decreases conds.len() - i,
{
    if i < conds.len() {
        assert(conds.take(i + 1).drop_last() =~= conds.take(i));
        lemma_pinned_prefix(conds, id, i + 1);
    } else {
        assert(conds.take(i) =~= conds);
    }
}

/// What pinning leaves of a path.
pub open spec fn pin_result(atoms: Seq<String>, r: Result<Option<Vec<(usize, bool)>>, String>) -> Result<
    (Seq<Seq<char>>, Option<Seq<(usize, bool)>>),
    Seq<char>,
> {
    match r {
        Ok(Some(c)) => Ok((texts(atoms), Some(c@))),
        Ok(None) => Ok((texts(atoms), None)),
        Err(e) => Err(e@),
    }
}

pub fn pin(cap: usize, atoms: &mut Vec<String>, conds: Vec<(usize, bool)>, label: &str, value: bool) -> (r: Result<
    Option<Vec<(usize, bool)>>,
    String,
>)
    ensures
        pin_result(final(atoms)@, r) == assign(cap, texts(old(atoms)@), conds@, label@, value),
{
    let id: usize = match atom_id(cap, atoms, label) {
        Ok(id) => id,
        Err(e) => {
            return Err(e);
        },
    };
    match find_pinned(&conds, id) {
        Some(v) => if v == value {
            Ok(Some(conds))
        } else {
            Ok(None)
        },
        None => {
            let mut conds = conds;
            conds.push((id, value));
            Ok(Some(conds))
        },
    }
}

pub fn pin_false(cap: usize, atoms: &mut Vec<String>, conds: &Vec<(usize, bool)>, labels: &Vec<String>) -> (r: Result<
    Option<Vec<(usize, bool)>>,
    String,
>)
    ensures
        pin_result(final(atoms)@, r) == assign_false(cap, texts(old(atoms)@), conds@, texts(labels@), 0),
{
    let mut now = copy_conds(conds);
    let ghost all = assign_false(cap, texts(atoms@), conds@, texts(labels@), 0);
    let mut i: usize = 0;
    while i < labels.len()
        invariant
            i <= labels.len(),
            all == assign_false(cap, texts(old(atoms)@), conds@, texts(labels@), 0),
            all == assign_false(cap, texts(atoms@), now@, texts(labels@), i as int),
        decreases labels.len() - i,
    {
        assert(texts(labels@)[i as int] == labels@[i as int]@);
        match pin(cap, atoms, now, labels[i].as_str(), false) {
            Err(e) => {
                return Err(e);
            },
            Ok(None) => {
                return Ok(None);
            },
            Ok(Some(c)) => {
                now = c;
            },
        }
        i = i + 1;
    }
    Ok(Some(now))
}

/// Enumerates the paths through a body.
pub fn walk_body(body: &Body, set: PathSet, conds: Vec<(usize, bool)>, rendered: Vec<String>) -> (r: Result<
    PathSet,
    String,
>)
    ensures
        paths_result(r) == walk(body_view(*body), set@, conds@, texts(rendered@)),
    decreases body_size(body_view(*body)), 0nat,
{
    if set.paths.len() > MAX_PATHS {
        return Err(too_many(MAX_PATHS, " paths"));
    }
    match body {
        Body::End => {
            let mut set = set;
            let path = RenderPath { conds, rendered };
            let ghost before = set@;
            set.paths.push(path);
            assert(set@.paths =~= before.paths.push(path@));
            Ok(set)
        },
        Body::Text(t, rest) => {
            let mut rendered = rendered;
            let ghost before = texts(rendered@);
            rendered.push(t.clone());
            assert(texts(rendered@) =~= before.push(t@));
            walk_body(rest, set, conds, rendered)
        },
        Body::Cond(arms, rest) => {
            let prior: Vec<String> = Vec::new();
            assert(texts(prior@) =~= Seq::empty());
            walk_branches(arms, rest, set, conds, rendered, prior)
        },
    }
}

/// Enumerates the paths through the branches of a conditional.
pub fn walk_branches(
    arms: &Arms,
    rest: &Body,
    set: PathSet,
    conds: Vec<(usize, bool)>,
    rendered: Vec<String>,
    prior: Vec<String>,
) -> (r: Result<PathSet, String>)
    ensures
        paths_result(r) == walk_arms(
            arms_view(*arms),
            body_view(*rest),
            set@,
            conds@,
            texts(rendered@),
            texts(prior@),
        ),
    decreases arms_size(arms_view(*arms)) + body_size(body_view(*rest)), 0nat,
{
    let mut set = set;
    let ghost paths0 = set@.paths;
    let open = match pin_false(MAX_VARIABLES, &mut set.atoms, &conds, &prior) {
        Err(e) => {
            return Err(e);
        },
        Ok(open) => open,
    };
    assert(set@.paths =~= paths0);
    match arms {
        Arms::Otherwise(body) => match open {
            None => Ok(set),
            Some(c) => walk_through(body, rest, set, c, rendered),
        },
        Arms::When(test, body, more) => {
            let mut set = set;
            match open {
                None => {},
                Some(c) => {
                    match pin(MAX_VARIABLES, &mut set.atoms, c, test.as_str(), true) {
                        Err(e) => {
                            return Err(e);
                        },
                        Ok(None) => {
                            assert(set@.paths =~= paths0);
                        },
                        Ok(Some(c)) => {
                            assert(set@.paths =~= paths0);
                            match walk_through(body, rest, set, c, copy_texts(rendered.as_slice())) {
                                Err(e) => {
                                    return Err(e);
                                },
                                Ok(s) => {
                                    set = s;
                                },
                            }
                        },
                    }
                },
            }
            let mut prior = prior;
            let ghost before = texts(prior@);
            prior.push(test.clone());
            assert(texts(prior@) =~= before.push(test@));
            walk_branches(more, rest, set, conds, rendered, prior)
        },
    }
}

/// Walk a conditional body, then resume the sibling list after it.
fn walk_through(
    body: &Body,
    rest: &Body,
    set: PathSet,
    conds: Vec<(usize, bool)>,
    rendered: Vec<String>,
) -> (r: Result<PathSet, String>)
    ensures
        paths_result(r) == walk_into(body_view(*body), body_view(*rest), set@, conds@, texts(rendered@)),
    decreases body_size(body_view(*body)) + body_size(body_view(*rest)), 0nat,
{
    let ghost whole = walk_into(body_view(*body), body_view(*rest), set@, conds@, texts(rendered@));
    let PathSet { atoms, paths } = set;
    let inner = PathSet { atoms, paths: Vec::new() };
    assert(inner@.paths =~= Seq::empty());
    let sub = match walk_body(body, inner, conds, rendered) {
        Err(e) => {
            return Err(e);
        },
        Ok(sub) => sub,
    };
    let PathSet { atoms, paths: found } = sub;
    let mut state = PathSet { atoms, paths };
    let ghost views = found@.map_values(|p: RenderPath| p@);
    let ghost all = walk_each(body_view(*rest), state@, views, 0);
    let mut i: usize = 0;
    while i < found.len()
        invariant
            i <= found.len(),
            views == found@.map_values(|p: RenderPath| p@),
            all == walk_each(body_view(*rest), state@, views, i as int),
            whole == all,
            whole == walk_into(body_view(*body), body_view(*rest), set@, conds@, texts(rendered@)),
        decreases found.len() - i,
    {
        assert(views[i as int] == found@[i as int]@);
        match walk_body(rest, state, copy_conds(&found[i].conds), copy_texts(found[i].rendered.as_slice())) {
            Err(e) => {
                return Err(e);
            },
            Ok(s) => {
                state = s;
            },
        }
        i = i + 1;
    }
    Ok(state)
}

} // verus!
