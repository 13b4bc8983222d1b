//! Laying one annotation over another.

use vstd::prelude::*;

use crate::lines::opt_text;
use crate::model::semantic::{copy_opt, AnnotationView, SemanticAnnotation};
use crate::text::{copy_texts, texts};

verus! {

/// The upper text where there is one.
pub open spec fn over(base: Option<Seq<char>>, overlay: Option<Seq<char>>) -> Option<Seq<char>> {
    match overlay {
        Some(t) => Some(t),
        None => base,
    }
}

/// The upper list where it is not empty.
pub open spec fn over_list(base: Seq<Seq<char>>, overlay: Seq<Seq<char>>) -> Seq<Seq<char>> {
    if overlay.len() == 0 {
        base
    } else {
        overlay
    }
}

/// One annotation over another, field by field.
pub open spec fn merged_annotation(base: AnnotationView, overlay: AnnotationView) -> AnnotationView {
    AnnotationView {
        intent: over(base.intent, overlay.intent),
        behavior: over(base.behavior, overlay.behavior),
        preconditions: over_list(base.preconditions, overlay.preconditions),
        postconditions: over_list(base.postconditions, overlay.postconditions),
        invariants: over_list(base.invariants, overlay.invariants),
        side_effects: over_list(base.side_effects, overlay.side_effects),
        error_behavior: over(base.error_behavior, overlay.error_behavior),
    }
}

fn choose_text(base: &Option<String>, overlay: &Option<String>) -> (r: Option<String>)
    ensures
        opt_text(r) == over(opt_text(*base), opt_text(*overlay)),
{
    match overlay {
        Some(t) => Some(t.clone()),
        None => copy_opt(base),
    }
}

fn choose_list(base: &Vec<String>, overlay: &Vec<String>) -> (r: Vec<String>)
    ensures
        texts(r@) == over_list(texts(base@), texts(overlay@)),
{
    assert(texts(overlay@).len() == overlay@.len());
    if overlay.len() == 0 {
        copy_texts(base.as_slice())
    } else {
        copy_texts(overlay.as_slice())
    }
}

pub fn merge_annotations(base: &SemanticAnnotation, overlay: &SemanticAnnotation) -> (r: SemanticAnnotation)
    ensures
        r@ == merged_annotation(base@, overlay@),
{
    SemanticAnnotation {
        intent: choose_text(&base.intent, &overlay.intent),
        behavior: choose_text(&base.behavior, &overlay.behavior),
        preconditions: choose_list(&base.preconditions, &overlay.preconditions),
        postconditions: choose_list(&base.postconditions, &overlay.postconditions),
        invariants: choose_list(&base.invariants, &overlay.invariants),
        side_effects: choose_list(&base.side_effects, &overlay.side_effects),
        error_behavior: choose_text(&base.error_behavior, &overlay.error_behavior),
    }
}

/// Laying annotations over one another does not depend on how they are
/// grouped, and an empty annotation changes nothing on either side.
pub proof fn law_merging(a: AnnotationView, b: AnnotationView, c: AnnotationView)
    ensures
        merged_annotation(merged_annotation(a, b), c) == merged_annotation(a, merged_annotation(b, c)),
        merged_annotation(a, AnnotationView::empty()) == a,
        merged_annotation(AnnotationView::empty(), a) == a,
        merged_annotation(a, a) == a,
{
    assert(merged_annotation(merged_annotation(a, b), c) =~= merged_annotation(a, merged_annotation(b, c)));
    assert(merged_annotation(a, AnnotationView::empty()) =~= a);
    assert(merged_annotation(AnnotationView::empty(), a) =~= a);
}

} // verus!
