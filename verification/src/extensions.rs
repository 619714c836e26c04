//! The adapters of this library as methods of every sequence.

use crate::mix::{Mix, MixView};
use crate::pair_with::PairWith;
use crate::product::product;
use crate::sequence::{Retraversable, Sequence};
use vstd::prelude::*;

verus! {

/// Adapters that every sequence has.
pub trait IteratorExtensions: Sequence {
    /// Every combination of the elements of two sequences.
    ///
    /// For each element of this sequence, the result gives that element paired with every
    /// element of `other`, in the order of `other`; then it moves on to the next element of
    /// this sequence. The elements of this sequence are copied into the pairs, and `other` is
    /// traversed afresh for each of them.
    fn mix<Other: Retraversable>(self, other: Other) -> (mix: Mix<Self, Other>) where
        Self::Item: Copy,

        ensures
            mix@ == MixView::start(self.remaining(), other.remaining()),
            mix.second_sequence() == other,
            mix@.forward() == product(self.remaining(), other.remaining()),
            self.remaining().len() == 0 || other.remaining().len() == 0 ==> mix@.forward().len()
                == 0 && mix@.backward().len() == 0,
    {
        Mix::new(self, other)
    }

    /// Pairs a copy of `item` with every element of this sequence.
    fn pair_with<Item: Copy>(self, item: Item) -> (paired: PairWith<Item, Self>)
        ensures
            paired@.item == item,
            paired@.elements == self.remaining(),
            paired.wrapped() == self,
    {
        PairWith::new(item, self)
    }
}

impl<I: Sequence> IteratorExtensions for I {

}

} // verus!
