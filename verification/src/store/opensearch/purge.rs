//! Passes over a whole store: nothing is touched before everything was checked.

use crate::error::Result;
use crate::text::texts;
use vstd::prelude::*;

verus! {

/// What is to be done next.
#[derive(Debug, PartialEq, Eq)]
pub enum PurgeAction {
    /// Check the document ids of an index.
    Validate(String),
    /// Do what the pass is for, to exactly these indices.
    Act(Vec<String>),
    /// There is nothing to do.
    Nothing,
}

/// A pass over the indices of a store, as far as they were checked.
pub struct Purge {
    indices: Vec<String>,
    checked: usize,
}

impl Purge {
    pub closed spec fn wf(&self) -> bool {
        self.checked <= self.indices@.len()
    }

    /// The indices of the store.
    pub closed spec fn indices(&self) -> Seq<Seq<char>> {
        texts(self.indices@)
    }

    /// How many of them were checked.
    pub closed spec fn checked(&self) -> nat {
        self.checked as nat
    }

    /// Starts a pass over indices and their collections.
    pub fn start(owned: Vec<(String, String)>) -> (purge: Self)
        ensures
            purge.wf(),
            purge.checked() == 0,
            purge.indices() == owned@.map_values(|pair: (String, String)| pair.0@),
    {
        let ghost all = owned@.map_values(|pair: (String, String)| pair.0@);
        let mut indices: Vec<String> = Vec::new();
        let mut i: usize = 0;
        while i < owned.len()
            invariant
                i <= owned@.len(),
                all == owned@.map_values(|pair: (String, String)| pair.0@),
                texts(indices@) =~= all.take(i as int),
            decreases owned@.len() - i,
        {
            let ghost before = indices@;
            indices.push(owned[i].0.clone());
            assert(texts(indices@) =~= texts(before).push(all[i as int]));
            i += 1;
        }
        assert(all.take(i as int) =~= all);
        Purge { indices, checked: 0 }
    }

    /// What is to be done next: the indices are checked one by one, and acted upon together, once
    /// all were found to be the store's own.
    pub fn next(&self) -> (action: PurgeAction)
        requires
            self.wf(),
        ensures
            match action {
                PurgeAction::Validate(index) => self.checked() < self.indices().len() && index@
                    == self.indices()[self.checked() as int],
                PurgeAction::Act(indices) => self.checked() == self.indices().len()
                    && self.indices().len() > 0 && texts(indices@) == self.indices(),
                PurgeAction::Nothing => self.indices().len() == 0,
            },
    {
        if self.checked < self.indices.len() {
            return PurgeAction::Validate(self.indices[self.checked].clone());
        }
        if self.indices.len() == 0 {
            return PurgeAction::Nothing;
        }
        let mut indices: Vec<String> = Vec::new();
        let mut i: usize = 0;
        while i < self.indices.len()
            invariant
                i <= self.indices@.len(),
                texts(indices@) =~= texts(self.indices@).take(i as int),
            decreases self.indices@.len() - i,
        {
            let ghost before = indices@;
            indices.push(self.indices[i].clone());
            assert(texts(indices@) =~= texts(before).push(self.indices@[i as int]@));
            i += 1;
        }
        assert(texts(self.indices@).take(i as int) =~= texts(self.indices@));
        PurgeAction::Act(indices)
    }

    /// Goes on with the outcome of a check: a failure ends the pass with nothing touched. An index
    /// that is gone meanwhile is as good as one that was checked.
    pub fn after_check(&mut self, outcome: Result<bool>) -> (result: Result<()>)
        requires
            old(self).wf(),
            old(self).checked() < old(self).indices().len(),
        ensures
            final(self).wf(),
            final(self).indices() == old(self).indices(),
            match outcome {
                Ok(_) => result is Ok && final(self).checked() == old(self).checked() + 1,
                Err(fault) => result matches Err(e) && e@ == fault@ && final(self).checked()
                    == old(self).checked(),
            },
    {
        let count: usize = self.indices.len();
        assert(self.checked < count);
        match outcome {
            Ok(_) => {
                self.checked = self.checked + 1;
                Ok(())
            },
            Err(e) => Err(e),
        }
    }
}

} // verus!
