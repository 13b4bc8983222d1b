//! Sets of texts.

use vstd::prelude::*;

use crate::text_map::{key_position, lemma_key_position, TextMap};

verus! {

/// A list of different texts with one more.
pub open spec fn including(list: Seq<Seq<char>>, text: Seq<char>) -> Seq<Seq<char>> {
    if list.contains(text) {
        list
    } else {
        list.push(text)
    }
}

/// A set of texts in order of first insertion.
pub struct TextSet {
    pub items: TextMap<bool>,
}

impl TextSet {
    pub open spec fn texts(self) -> Seq<Seq<char>> {
        self.items.entries().map_values(|e: (Seq<char>, bool)| e.0)
    }

    pub fn new() -> (r: Self)
        ensures
            r.texts() == Seq::<Seq<char>>::empty(),
    {
        let r = TextSet { items: TextMap::new() };
        assert(r.texts() =~= Seq::<Seq<char>>::empty());
        r
    }

    pub fn has(&self, text: &str) -> (r: bool)
        ensures
            r == self.texts().contains(text@),
    {
        let found = self.items.find(text);
        proof {
            let es = self.items.entries();
            lemma_key_position(es, text@);
            match found {
                Some(i) => {
                    assert(self.texts()[i as int] == text@);
                },
                None => {
                    assert forall|j: int| 0 <= j < self.texts().len() implies self.texts()[j] != text@ by {
                        assert(es[j].0 != text@);
                    }
                },
            }
        }
        found.is_some()
    }

    /// Adds a text; says whether it was new.
    pub fn add_text(&mut self, text: String) -> (r: bool)
        ensures
            r == !old(self).texts().contains(text@),
            final(self).texts() == including(old(self).texts(), text@),
    {
        if self.has(text.as_str()) {
            return false;
        }
        let ghost es = self.items.entries();
        let ghost before = self.texts();
        let ghost t = text@;
        self.items.insert(text, true);
        proof {
            lemma_key_position(es, t);
            match key_position(es, t) {
                Some(i) => {
                    assert(before[i] == t);
                },
                None => {},
            }
            assert(self.texts() =~= before.push(t));
        }
        true
    }

    pub fn len(&self) -> (r: usize)
        ensures
            r == self.texts().len(),
    {
        self.items.len()
    }

    pub fn text_at(&self, i: usize) -> (r: &String)
        requires
            i < self.texts().len(),
        ensures
            r@ == self.texts()[i as int],
    {
        self.items.key_at(i)
    }
}

} // verus!
