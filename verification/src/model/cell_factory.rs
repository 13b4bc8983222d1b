//! Numbered cells and incidences of one space.

use vstd::prelude::*;

use crate::lines::{trim, trimmed};
use crate::model::entity::{cell_type_of, JavaEntityType};
use crate::model::graph::{
    Cell, CellView, Confidence, Incidence, LinkView, Provenance, ProvenanceView, Space, EXTRACTED_BITS,
};
use crate::model::relation::{relation_text, JavaRelationType};
use crate::model::witness::{WitnessInfo, WitnessView};
use crate::text::{chars_of, decimal, decimal_text, string_of};

verus! {

pub struct CellFactory {
    space_id: String,
    counter: u64,
}

/// The provenance of what a witness shows.
pub open spec fn provenance_of(w: WitnessView) -> ProvenanceView {
    ProvenanceView {
        uri: Some(
            trimmed(w.file + "#L"@ + decimal_text(w.start_line as nat) + "-L"@ + decimal_text(w.end_line as nat)),
        ),
        title: Some(trimmed(w.file)),
        extraction_method: Some("tree-sitter-java"@),
        confidence: Confidence { bits: EXTRACTED_BITS },
    }
}

/// A text without white space at either end.
fn trim_text(s: &str) -> (r: String)
    ensures
        r@ == trimmed(s@),
{
    string_of(trim(chars_of(s).as_slice()))
}

fn make_provenance(witness: &WitnessInfo) -> (r: Provenance)
    ensures
        r@ == provenance_of(witness@),
{
    let mut uri = witness.file.clone();
    uri.append("#L");
    uri.append(decimal(witness.start_line as u128).as_str());
    uri.append("-L");
    uri.append(decimal(witness.end_line as u128).as_str());
    Provenance {
        uri: Some(trim_text(uri.as_str())),
        title: Some(trim_text(witness.file.as_str())),
        extraction_method: Some("tree-sitter-java".to_owned()),
        confidence: Confidence { bits: EXTRACTED_BITS },
    }
}

/// A cell for an entity.
pub open spec fn entity_cell(
    id: Seq<char>,
    space_id: Seq<char>,
    entity_type: JavaEntityType,
    label: Seq<char>,
    witness: WitnessView,
) -> CellView {
    CellView {
        id,
        space_id,
        dimension: 0,
        cell_type: cell_type_of(entity_type),
        label: Some(label),
        provenance: Some(provenance_of(witness)),
    }
}

/// The number after a given one; the numbers start over when they run out.
pub open spec fn next_count(count: int) -> int {
    if count == u64::MAX {
        0
    } else {
        count + 1
    }
}

impl CellFactory {
    pub closed spec fn space(self) -> Seq<char> {
        self.space_id@
    }

    /// The number in the last identifier.
    pub closed spec fn count(self) -> int {
        self.counter as int
    }

    pub fn new(space_id: String) -> (r: Self)
        ensures
            r.space() == space_id@,
            r.count() == 0,
    {
        CellFactory { space_id, counter: 0 }
    }

    pub fn space_id(&self) -> (r: &String)
        ensures
            r@ == self.space(),
    {
        &self.space_id
    }

    fn next_id(&mut self, prefix: &str) -> (r: String)
        ensures
            final(self).space() == old(self).space(),
            final(self).count() == next_count(old(self).count()),
            r@ == prefix@ + ":"@ + decimal_text(next_count(old(self).count()) as nat),
    {
        self.counter = self.counter.wrapping_add(1);
        let mut id = prefix.to_owned();
        id.append(":");
        id.append(decimal(self.counter as u128).as_str());
        id
    }

    pub fn create_space(&mut self, name: &str) -> (r: Space)
        ensures
            *final(self) == *old(self),
            r.id@ == old(self).space(),
            r.name@ == trimmed(name@),
            r.cell_ids@.len() == 0,
            r.incidence_ids@.len() == 0,
    {
        Space {
            id: self.space_id.clone(),
            name: trim_text(name),
            cell_ids: Vec::new(),
            incidence_ids: Vec::new(),
        }
    }

    /// A cell for an entity under a fresh identifier.
    pub fn create_entity_cell(
        &mut self,
        entity_type: &JavaEntityType,
        _fqn: &str,
        label: &str,
        witness: &WitnessInfo,
    ) -> (r: Cell)
        requires
            trimmed(witness.file@).len() > 0,
        ensures
            final(self).space() == old(self).space(),
            final(self).count() == next_count(old(self).count()),
            r@ == entity_cell(
                "cell"@ + ":"@ + decimal_text(next_count(old(self).count()) as nat),
                old(self).space(),
                *entity_type,
                label@,
                witness@,
            ),
    {
        let id = self.next_id("cell");
        self.create_entity_cell_with_id(id, entity_type, label, witness)
    }

    /// A relation between two cells under a fresh identifier.
    pub fn create_relation_incidence(
        &mut self,
        relation_type: &JavaRelationType,
        from_cell_id: String,
        to_cell_id: String,
        witness: &WitnessInfo,
    ) -> (r: Incidence)
        requires
            trimmed(witness.file@).len() > 0,
        ensures
            final(self).space() == old(self).space(),
            final(self).count() == next_count(old(self).count()),
            r@ == (LinkView {
                id: "inc"@ + ":"@ + decimal_text(next_count(old(self).count()) as nat),
                space_id: old(self).space(),
                from: from_cell_id@,
                to: to_cell_id@,
                relation: relation_text(*relation_type),
                provenance: Some(provenance_of(witness@)),
            }),
    {
        let id = self.next_id("inc");
        Incidence {
            id,
            space_id: self.space_id.clone(),
            from_cell_id,
            to_cell_id,
            relation_type: relation_type.relation_type_str().to_owned(),
            provenance: Some(make_provenance(witness)),
        }
    }

    /// A cell for an entity under a given identifier.
    pub fn create_entity_cell_with_id(
        &mut self,
        cell_id: String,
        entity_type: &JavaEntityType,
        label: &str,
        witness: &WitnessInfo,
    ) -> (r: Cell)
        requires
            trimmed(witness.file@).len() > 0,
        ensures
            *final(self) == *old(self),
            r@ == entity_cell(cell_id@, old(self).space(), *entity_type, label@, witness@),
    {
        Cell {
            id: cell_id,
            space_id: self.space_id.clone(),
            dimension: 0,
            cell_type: entity_type.cell_type_str().to_owned(),
            label: Some(label.to_owned()),
            provenance: Some(make_provenance(witness)),
        }
    }
}

} // verus!
