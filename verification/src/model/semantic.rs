//! What is known of an entity's meaning.

use vstd::prelude::*;

use crate::lines::opt_text;
use crate::text::{copy_texts, texts};

verus! {

#[derive(Debug, Clone)]
pub struct SemanticAnnotation {
    pub intent: Option<String>,
    pub behavior: Option<String>,
    pub preconditions: Vec<String>,
    pub postconditions: Vec<String>,
    pub invariants: Vec<String>,
    pub side_effects: Vec<String>,
    pub error_behavior: Option<String>,
}

/// An annotation as mathematics.
#[verifier::ext_equal]
pub struct AnnotationView {
    pub intent: Option<Seq<char>>,
    pub behavior: Option<Seq<char>>,
    pub preconditions: Seq<Seq<char>>,
    pub postconditions: Seq<Seq<char>>,
    pub invariants: Seq<Seq<char>>,
    pub side_effects: Seq<Seq<char>>,
    pub error_behavior: Option<Seq<char>>,
}

impl View for SemanticAnnotation {
    type V = AnnotationView;

    open spec fn view(&self) -> AnnotationView {
        AnnotationView {
            intent: opt_text(self.intent),
            behavior: opt_text(self.behavior),
            preconditions: texts(self.preconditions@),
            postconditions: texts(self.postconditions@),
            invariants: texts(self.invariants@),
            side_effects: texts(self.side_effects@),
            error_behavior: opt_text(self.error_behavior),
        }
    }
}

impl AnnotationView {
    /// Nothing is known.
    pub open spec fn empty() -> Self {
        AnnotationView {
            intent: None,
            behavior: None,
            preconditions: Seq::empty(),
            postconditions: Seq::empty(),
            invariants: Seq::empty(),
            side_effects: Seq::empty(),
            error_behavior: None,
        }
    }
}

/// A copy of an optional string.
pub fn copy_opt(s: &Option<String>) -> (r: Option<String>)
    ensures
        opt_text(r) == opt_text(*s),
{
    match s {
        Some(t) => Some(t.clone()),
        None => None,
    }
}

impl SemanticAnnotation {
    /// True if any semantic field carries content (i.e. this annotation is
    /// more than an empty placeholder).
    pub fn has_content(&self) -> (r: bool)
        ensures
            r == (self@ != AnnotationView::empty()),
    {
        let r = self.intent.is_some() || self.behavior.is_some() || self.error_behavior.is_some()
            || self.preconditions.len() > 0 || self.postconditions.len() > 0 || self.side_effects.len() > 0
            || self.invariants.len() > 0;
        proof {
            if !r {
                assert(self@ =~= AnnotationView::empty());
            } else {
                assert(self.preconditions@.len() == self@.preconditions.len());
                assert(self.postconditions@.len() == self@.postconditions.len());
                assert(self.side_effects@.len() == self@.side_effects.len());
                assert(self.invariants@.len() == self@.invariants.len());
            }
        }
        r
    }

    /// The same annotation again.
    pub fn copied(&self) -> (r: Self)
        ensures
            r@ == self@,
    {
        SemanticAnnotation {
            intent: copy_opt(&self.intent),
            behavior: copy_opt(&self.behavior),
            preconditions: copy_texts(self.preconditions.as_slice()),
            postconditions: copy_texts(self.postconditions.as_slice()),
            invariants: copy_texts(self.invariants.as_slice()),
            side_effects: copy_texts(self.side_effects.as_slice()),
            error_behavior: copy_opt(&self.error_behavior),
        }
    }
}

impl Default for SemanticAnnotation {
    fn default() -> (r: Self)
        ensures
            r@ == AnnotationView::empty(),
    {
        let r = SemanticAnnotation {
            intent: None,
            behavior: None,
            preconditions: Vec::new(),
            postconditions: Vec::new(),
            invariants: Vec::new(),
            side_effects: Vec::new(),
            error_behavior: None,
        };
        assert(r@ =~= AnnotationView::empty());
        r
    }
}

} // verus!
