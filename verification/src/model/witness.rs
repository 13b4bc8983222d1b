//! Where in the sources a fact was seen.

use vstd::prelude::*;

use crate::model::derivation::DerivationSource;

verus! {

#[derive(Debug, Clone)]
pub struct WitnessInfo {
    pub file: String,
    pub start_line: u32,
    pub end_line: u32,
    pub start_col: u32,
    pub end_col: u32,
    pub derivation_source: DerivationSource,
}

/// A witness as mathematics.
#[verifier::ext_equal]
pub struct WitnessView {
    pub file: Seq<char>,
    pub start_line: u32,
    pub end_line: u32,
    pub start_col: u32,
    pub end_col: u32,
    pub derivation_source: DerivationSource,
}

impl View for WitnessInfo {
    type V = WitnessView;

    open spec fn view(&self) -> WitnessView {
        WitnessView {
            file: self.file@,
            start_line: self.start_line,
            end_line: self.end_line,
            start_col: self.start_col,
            end_col: self.end_col,
            derivation_source: self.derivation_source,
        }
    }
}

impl WitnessInfo {
    /// The same witness again.
    pub fn copied(&self) -> (r: Self)
        ensures
            r@ == self@,
    {
        WitnessInfo {
            file: self.file.clone(),
            start_line: self.start_line,
            end_line: self.end_line,
            start_col: self.start_col,
            end_col: self.end_col,
            derivation_source: self.derivation_source,
        }
    }
}

} // verus!
