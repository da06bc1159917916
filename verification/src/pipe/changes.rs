//! Changes made to a grid by a pipeline step.
use vstd::prelude::*;

use crate::util::tri::TriState;

verus! {

/// Contains a single change to a [`MapGrid`](crate::data::MapGrid).
#[derive(Debug, Clone, Copy, PartialEq, Eq, Structural, Hash)]
pub struct GridChange {
    pub row: usize,
    pub col: usize,
    pub prev_value: TriState,
    pub new_value: TriState,
}

/// A list of [`GridChange`]s, in the order in which they were made.
#[derive(Debug)]
pub struct Changelist(Vec<GridChange>);

impl View for Changelist {
    type V = Seq<GridChange>;

    closed spec fn view(&self) -> Seq<GridChange> {
        self.0@
    }
}

impl Default for Changelist {
    fn default() -> (r: Self)
        ensures
            r@ == Seq::<GridChange>::empty(),
    {
        Changelist(Vec::new())
    }
}

impl Changelist {
    /// Create a new empty [`Changelist`].
    pub fn new() -> (r: Self)
        ensures
            r@ == Seq::<GridChange>::empty(),
    {
        Changelist(Vec::new())
    }

    /// Create a [`Changelist`] holding the given changes, in order.
    pub fn from_changes(changes: Vec<GridChange>) -> (r: Self)
        ensures
            r@ == changes@,
    {
        let mut new = Self::new();
        let mut i: usize = 0;
        while i < changes.len()
            invariant
                i <= changes@.len(),
                new@ == changes@.take(i as int),
            decreases changes@.len() - i,
        {
            new.add_change(changes[i]);
            proof {
                assert(changes@.take(i as int + 1) =~= changes@.take(i as int).push(changes@[i as int]));
            }
            i = i + 1;
        }
        proof {
            assert(changes@.take(i as int) =~= changes@);
        }
        new
    }

    /// Add a [`GridChange`] to the end of the [`Changelist`].
    pub fn add_change(&mut self, input: GridChange)
        ensures
            final(self)@ == old(self)@.push(input),
    {
        self.0.push(input);
    }

    /// Create a new [`GridChange`] and add it to the end of the list.
    pub fn add_change_from(&mut self, row: usize, col: usize, prev_value: TriState, new_value: TriState)
        ensures
            final(self)@ == old(self)@.push(GridChange { row, col, prev_value, new_value }),
    {
        self.0.push(GridChange { row, col, prev_value, new_value });
    }

    /// Get the list of changes.
    pub fn data(&self) -> (r: &Vec<GridChange>)
        ensures
            r@ == self@,
    {
        &self.0
    }
}

} // verus!
