//! What queries answer.

use vstd::prelude::*;

use crate::model::graph::Confidence;
use crate::text::texts;

verus! {

/// A value with the confidence in it and where it comes from.
#[derive(Debug)]
pub struct ConfidenceWrapped<T> {
    pub value: T,
    pub confidence: Confidence,
    pub source: String,
}

#[verifier::ext_equal]
pub struct WrappedView {
    pub value: Seq<char>,
    pub confidence: Confidence,
    pub source: Seq<char>,
}

impl View for ConfidenceWrapped<String> {
    type V = WrappedView;

    open spec fn view(&self) -> WrappedView {
        WrappedView { value: self.value@, confidence: self.confidence, source: self.source@ }
    }
}

#[derive(Debug)]
pub struct WitnessRef {
    pub file: String,
    pub start_line: u32,
    pub end_line: u32,
    pub derivation_source: String,
}

#[verifier::ext_equal]
pub struct WitnessRefView {
    pub file: Seq<char>,
    pub start_line: u32,
    pub end_line: u32,
    pub derivation_source: Seq<char>,
}

impl View for WitnessRef {
    type V = WitnessRefView;

    open spec fn view(&self) -> WitnessRefView {
        WitnessRefView {
            file: self.file@,
            start_line: self.start_line,
            end_line: self.end_line,
            derivation_source: self.derivation_source@,
        }
    }
}

#[derive(Debug)]
pub struct CallRelation {
    pub target: String,
    pub target_label: String,
    pub relation_type: String,
    pub confidence: Confidence,
    pub witness: Option<WitnessRef>,
}

#[verifier::ext_equal]
pub struct CallRelationView {
    pub target: Seq<char>,
    pub target_label: Seq<char>,
    pub relation_type: Seq<char>,
    pub confidence: Confidence,
    pub witness: Option<WitnessRefView>,
}

impl View for CallRelation {
    type V = CallRelationView;

    open spec fn view(&self) -> CallRelationView {
        CallRelationView {
            target: self.target@,
            target_label: self.target_label@,
            relation_type: self.relation_type@,
            confidence: self.confidence,
            witness: match self.witness {
                Some(x) => Some(x@),
                None => None,
            },
        }
    }
}

#[derive(Debug)]
pub struct CallGraphResult {
    pub symbol: String,
    pub relations: Vec<CallRelation>,
}

#[verifier::ext_equal]
pub struct CallGraphResultView {
    pub symbol: Seq<char>,
    pub relations: Seq<CallRelationView>,
}

impl View for CallGraphResult {
    type V = CallGraphResultView;

    open spec fn view(&self) -> CallGraphResultView {
        CallGraphResultView {
            symbol: self.symbol@,
            relations: self.relations@.map_values(|x: CallRelation| x@),
        }
    }
}

#[derive(Debug)]
pub struct ExplainResult {
    pub symbol: String,
    pub entity_type: String,
    pub signature: String,
    pub intent: Option<ConfidenceWrapped<String>>,
    pub behavior: Option<ConfidenceWrapped<String>>,
    pub preconditions: Vec<ConfidenceWrapped<String>>,
    pub postconditions: Vec<ConfidenceWrapped<String>>,
    pub side_effects: Vec<ConfidenceWrapped<String>>,
    pub error_behavior: Option<ConfidenceWrapped<String>>,
    pub witnesses: Vec<WitnessRef>,
    pub obstructions: Vec<String>,
    pub callers: Vec<String>,
    pub callees: Vec<String>,
}

#[verifier::ext_equal]
pub struct ExplainResultView {
    pub symbol: Seq<char>,
    pub entity_type: Seq<char>,
    pub signature: Seq<char>,
    pub intent: Option<WrappedView>,
    pub behavior: Option<WrappedView>,
    pub preconditions: Seq<WrappedView>,
    pub postconditions: Seq<WrappedView>,
    pub side_effects: Seq<WrappedView>,
    pub error_behavior: Option<WrappedView>,
    pub witnesses: Seq<WitnessRefView>,
    pub obstructions: Seq<Seq<char>>,
    pub callers: Seq<Seq<char>>,
    pub callees: Seq<Seq<char>>,
}

impl View for ExplainResult {
    type V = ExplainResultView;

    open spec fn view(&self) -> ExplainResultView {
        ExplainResultView {
            symbol: self.symbol@,
            entity_type: self.entity_type@,
            signature: self.signature@,
            intent: match self.intent {
                Some(x) => Some(x@),
                None => None,
            },
            behavior: match self.behavior {
                Some(x) => Some(x@),
                None => None,
            },
            preconditions: self.preconditions@.map_values(|x: ConfidenceWrapped<String>| x@),
            postconditions: self.postconditions@.map_values(|x: ConfidenceWrapped<String>| x@),
            side_effects: self.side_effects@.map_values(|x: ConfidenceWrapped<String>| x@),
            error_behavior: match self.error_behavior {
                Some(x) => Some(x@),
                None => None,
            },
            witnesses: self.witnesses@.map_values(|x: WitnessRef| x@),
            obstructions: texts(self.obstructions@),
            callers: texts(self.callers@),
            callees: texts(self.callees@),
        }
    }
}

} // verus!
