//! Pairing one fixed item with every element of a sequence.

use crate::product::pairs;
use crate::sequence::{DoubleEndedSequence, ExactSizeSequence, Retraversable, Sequence};
use vstd::prelude::*;

verus! {

/// The sequence of pairs of one fixed item with each element of a wrapped sequence.
///
/// The item is copied into every pair; the wrapped sequence decides how many pairs there are
/// and in which order they come.
#[derive(Debug, PartialEq, Eq, Clone)]
pub struct PairWith<Item: Copy, Iter: Sequence> {
    item: Item,
    iter: Iter,
}

/// What a [`PairWith`] stands for: its item, and the elements that it has not paired yet.
pub ghost struct PairWithView<Item, Element> {
    pub item: Item,
    pub elements: Seq<Element>,
}

impl<Item: Copy, Iter: Sequence> View for PairWith<Item, Iter> {
    type V = PairWithView<Item, Iter::Item>;

    closed spec fn view(&self) -> Self::V {
        PairWithView { item: self.item, elements: self.iter.remaining() }
    }
}

impl<Item: Copy, Iter: Sequence> PairWith<Item, Iter> {
    /// The wrapped sequence, as it stands.
    pub closed spec fn wrapped(&self) -> Iter {
        self.iter
    }

    /// A pairing has the elements of the wrapped sequence to pair, and it counts and bounds
    /// as the wrapped sequence does.
    pub proof fn lemma_wrapped(&self)
        ensures
            self@.elements == self.wrapped().remaining(),
            self.counted() == self.wrapped().counted(),
            self.countable() == self.wrapped().countable(),
            self.bounds() == self.wrapped().bounds(),
    {
    }

    /// Pairs `item` with every element that `iter` has left.
    pub fn new(item: Item, iter: Iter) -> (paired: Self)
        ensures
            paired@.item == item,
            paired@.elements == iter.remaining(),
            paired.wrapped() == iter,
    {
        Self { item, iter }
    }
}

impl<Item: Copy, Iter: Sequence> Sequence for PairWith<Item, Iter> {
    type Item = (Item, Iter::Item);

    open spec fn remaining(&self) -> Seq<(Item, Iter::Item)> {
        pairs(self@.item, self@.elements)
    }

    /// What the wrapped sequence counts as left.
    closed spec fn counted(&self) -> nat {
        self.iter.counted()
    }

    /// Whether the wrapped sequence can count.
    closed spec fn countable(&self) -> bool {
        self.iter.countable()
    }

    /// The bounds that the wrapped sequence reports.
    closed spec fn bounds(&self) -> (usize, Option<usize>) {
        self.iter.bounds()
    }

    /// Draws the front element of the wrapped sequence and pairs the item with it.
    fn next(&mut self) -> (pair: Option<(Item, Iter::Item)>)
        ensures
            final(self)@.item == old(self)@.item,
            final(self)@.elements == final(self).wrapped().remaining(),
            old(self)@.elements.len() > 0 ==> pair == Some(
                (old(self)@.item, old(self)@.elements.first()),
            ) && final(self)@.elements == old(self)@.elements.drop_first(),
            old(self)@.elements.len() == 0 ==> pair is None && final(self)@ == old(self)@,
    {
        let drawn = self.iter.next();
        proof {
            if old(self)@.elements.len() > 0 {
                assert(pairs(self@.item, old(self)@.elements.drop_first()) =~= pairs(
                    old(self)@.item,
                    old(self)@.elements,
                ).drop_first());
            }
        }
        match drawn {
            Some(element) => Some((self.item, element)),
            None => None,
        }
    }

    /// The bounds that the wrapped sequence reports: pairing changes no count.
    fn size_hint(&self) -> (hint: (usize, Option<usize>))
        ensures
            hint == self.wrapped().bounds(),
            self.wrapped().remaining() == self@.elements,
    {
        self.iter.size_hint()
    }

    /// The number of elements that the wrapped sequence counts as left.
    fn count(self) -> (total: usize)
        ensures
            total == self.wrapped().counted(),
            self.wrapped().remaining() == self@.elements,
    {
        self.iter.count()
    }
}

impl<Item: Copy, Iter: DoubleEndedSequence> DoubleEndedSequence for PairWith<Item, Iter> {
    /// Draws the back element of the wrapped sequence and pairs the item with it.
    fn next_back(&mut self) -> (pair: Option<(Item, Iter::Item)>)
        ensures
            final(self)@.item == old(self)@.item,
            final(self)@.elements == final(self).wrapped().remaining(),
            old(self)@.elements.len() > 0 ==> pair == Some(
                (old(self)@.item, old(self)@.elements.last()),
            ) && final(self)@.elements == old(self)@.elements.drop_last(),
            old(self)@.elements.len() == 0 ==> pair is None && final(self)@ == old(self)@,
    {
        let drawn = self.iter.next_back();
        proof {
            if old(self)@.elements.len() > 0 {
                assert(pairs(self@.item, old(self)@.elements.drop_last()) =~= pairs(
                    old(self)@.item,
                    old(self)@.elements,
                ).drop_last());
            }
        }
        match drawn {
            Some(element) => Some((self.item, element)),
            None => None,
        }
    }
}

impl<Item: Copy, Iter: ExactSizeSequence> ExactSizeSequence for PairWith<Item, Iter> {
    proof fn lemma_exact_size(&self) {
        self.iter.lemma_exact_size();
    }

    /// The number of elements that the wrapped sequence has left.
    fn len(&self) -> (length: usize)
        ensures
            length == self@.elements.len(),
    {
        self.iter.len()
    }
}

impl<Item: Copy, Iter: Retraversable> Retraversable for PairWith<Item, Iter> {
    fn fresh(&self) -> (traversal: Self)
        ensures
            traversal@ == self@,
    {
        Self { item: self.item, iter: self.iter.fresh() }
    }
}

} // verus!
