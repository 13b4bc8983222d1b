//! The graph of a space: cells, incidences and where they come from.

use vstd::prelude::*;

use crate::lines::opt_text;
use crate::model::semantic::copy_opt;

verus! {

/// A score between zero and one, kept as the bits of the IEEE 754 double
/// that it is; scores compare as their bits do.
#[derive(Debug, Clone, Copy, PartialEq, Eq, Structural)]
pub struct Confidence {
    pub bits: u64,
}

/// The bits of `0.5`.
pub const HALF_BITS: u64 = 0x3fe0_0000_0000_0000;

/// The bits of `0.95`.
pub const EXTRACTED_BITS: u64 = 0x3fee_6666_6666_6666;

/// The bits of a double that is no number.
pub open spec fn no_number(bits: u64) -> bool {
    bits as int % 0x8000_0000_0000_0000 > 0x7ff0_0000_0000_0000
}

/// Where a double stands in the order of doubles.
pub open spec fn rank(bits: u64) -> int {
    if bits >= 0x8000_0000_0000_0000u64 {
        -(bits - 0x8000_0000_0000_0000)
    } else {
        bits as int
    }
}

/// One double is smaller than another; nothing compares with what is no number.
pub open spec fn is_less(a: u64, b: u64) -> bool {
    !no_number(a) && !no_number(b) && rank(a) < rank(b)
}

/// One double is another or a greater one.
pub open spec fn is_at_least(a: u64, b: u64) -> bool {
    !no_number(a) && !no_number(b) && rank(a) >= rank(b)
}

fn number_rank(bits: u64) -> (r: Option<i128>)
    ensures
        r is None <==> no_number(bits),
        r matches Some(n) ==> n == rank(bits),
{
    if bits % 0x8000_0000_0000_0000 > 0x7ff0_0000_0000_0000 {
        None
    } else if bits >= 0x8000_0000_0000_0000 {
        Some(-((bits - 0x8000_0000_0000_0000) as i128))
    } else {
        Some(bits as i128)
    }
}

pub fn less(a: u64, b: u64) -> (r: bool)
    ensures
        r == is_less(a, b),
{
    match (number_rank(a), number_rank(b)) {
        (Some(x), Some(y)) => x < y,
        _ => false,
    }
}

pub fn at_least(a: u64, b: u64) -> (r: bool)
    ensures
        r == is_at_least(a, b),
{
    match (number_rank(a), number_rank(b)) {
        (Some(x), Some(y)) => x >= y,
        _ => false,
    }
}

#[derive(Debug, Clone)]
pub struct Provenance {
    pub uri: Option<String>,
    pub title: Option<String>,
    pub extraction_method: Option<String>,
    pub confidence: Confidence,
}

#[derive(Debug, Clone)]
pub struct Space {
    pub id: String,
    pub name: String,
    pub cell_ids: Vec<String>,
    pub incidence_ids: Vec<String>,
}

#[derive(Debug, Clone)]
pub struct Cell {
    pub id: String,
    pub space_id: String,
    pub dimension: u32,
    pub cell_type: String,
    pub label: Option<String>,
    pub provenance: Option<Provenance>,
}

/// A directed relation between two cells.
#[derive(Debug, Clone)]
pub struct Incidence {
    pub id: String,
    pub space_id: String,
    pub from_cell_id: String,
    pub to_cell_id: String,
    pub relation_type: String,
    pub provenance: Option<Provenance>,
}

#[verifier::ext_equal]
pub struct ProvenanceView {
    pub uri: Option<Seq<char>>,
    pub title: Option<Seq<char>>,
    pub extraction_method: Option<Seq<char>>,
    pub confidence: Confidence,
}

#[verifier::ext_equal]
pub struct CellView {
    pub id: Seq<char>,
    pub space_id: Seq<char>,
    pub dimension: u32,
    pub cell_type: Seq<char>,
    pub label: Option<Seq<char>>,
    pub provenance: Option<ProvenanceView>,
}

#[verifier::ext_equal]
pub struct LinkView {
    pub id: Seq<char>,
    pub space_id: Seq<char>,
    pub from: Seq<char>,
    pub to: Seq<char>,
    pub relation: Seq<char>,
    pub provenance: Option<ProvenanceView>,
}

impl View for Provenance {
    type V = ProvenanceView;

    open spec fn view(&self) -> ProvenanceView {
        ProvenanceView {
            uri: opt_text(self.uri),
            title: opt_text(self.title),
            extraction_method: opt_text(self.extraction_method),
            confidence: self.confidence,
        }
    }
}

/// What an optional provenance holds.
pub open spec fn opt_provenance(p: Option<Provenance>) -> Option<ProvenanceView> {
    match p {
        Some(p) => Some(p@),
        None => None,
    }
}

impl View for Cell {
    type V = CellView;

    open spec fn view(&self) -> CellView {
        CellView {
            id: self.id@,
            space_id: self.space_id@,
            dimension: self.dimension,
            cell_type: self.cell_type@,
            label: opt_text(self.label),
            provenance: opt_provenance(self.provenance),
        }
    }
}

impl View for Incidence {
    type V = LinkView;

    open spec fn view(&self) -> LinkView {
        LinkView {
            id: self.id@,
            space_id: self.space_id@,
            from: self.from_cell_id@,
            to: self.to_cell_id@,
            relation: self.relation_type@,
            provenance: opt_provenance(self.provenance),
        }
    }
}

impl Provenance {
    /// The same provenance again.
    pub fn copied(&self) -> (r: Self)
        ensures
            r@ == self@,
    {
        Provenance {
            uri: copy_opt(&self.uri),
            title: copy_opt(&self.title),
            extraction_method: copy_opt(&self.extraction_method),
            confidence: self.confidence,
        }
    }
}

fn copy_provenance(p: &Option<Provenance>) -> (r: Option<Provenance>)
    ensures
        opt_provenance(r) == opt_provenance(*p),
{
    match p {
        Some(p) => Some(p.copied()),
        None => None,
    }
}

impl Cell {
    /// The same cell again.
    pub fn copied(&self) -> (r: Self)
        ensures
            r@ == self@,
    {
        Cell {
            id: self.id.clone(),
            space_id: self.space_id.clone(),
            dimension: self.dimension,
            cell_type: self.cell_type.clone(),
            label: copy_opt(&self.label),
            provenance: copy_provenance(&self.provenance),
        }
    }
}

impl Incidence {
    /// The same incidence again.
    pub fn copied(&self) -> (r: Self)
        ensures
            r@ == self@,
    {
        Incidence {
            id: self.id.clone(),
            space_id: self.space_id.clone(),
            from_cell_id: self.from_cell_id.clone(),
            to_cell_id: self.to_cell_id.clone(),
            relation_type: self.relation_type.clone(),
            provenance: copy_provenance(&self.provenance),
        }
    }
}

} // verus!
