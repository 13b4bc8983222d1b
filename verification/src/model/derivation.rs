//! Where a fact was derived from.

use vstd::prelude::*;

verus! {

#[derive(Debug, Clone, Copy, PartialEq, Eq, Hash, Structural)]
pub enum DerivationSource {
    TreeSitter,
    Lsp,
    LlmBehavior,
    LlmContract,
    LlmInvariant,
    Test,
    TypeSystem,
}

} // verus!
