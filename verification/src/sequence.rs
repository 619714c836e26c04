//! Sequences: producers of elements that are drawn one at a time.
//!
//! Every sequence here owns finitely many elements. Its model is the `Seq` of the elements
//! that have not been drawn yet, front to back. A sequence may have more elements than a
//! `usize` can count, and it may report no upper bound of their number.

use vstd::prelude::*;

verus! {

/// Whether `hint` bounds `length`: its lower bound is at most `length`, and its upper bound,
/// where it has one, is at least `length`.
pub open spec fn is_size_hint(hint: (usize, Option<usize>), length: nat) -> bool {
    &&& hint.0 <= length
    &&& hint.1 matches Some(upper) ==> length <= upper
}

/// A producer of elements, drawn one at a time from the front.
pub trait Sequence: Sized {
    /// The type of the elements.
    type Item;

    /// The elements that have not been drawn yet, in the order in which `next` draws them.
    spec fn remaining(&self) -> Seq<Self::Item>;

    /// The number of elements that the sequence counts as left: `size_hint` bounds it and
    /// `count` returns it.
    ///
    /// For a source of elements it is the number of the elements that have not been drawn
    /// yet. An adapter says what it is of its own.
    spec fn counted(&self) -> nat;

    /// Whether `count` can give the number of elements counted as left.
    spec fn countable(&self) -> bool;

    /// The bounds that the sequence reports, as it stands, of the number of elements counted
    /// as left.
    spec fn bounds(&self) -> (usize, Option<usize>);

    /// Draws the front element, or signals the end of the sequence.
    ///
    /// A sequence that has signalled its end keeps doing so.
    fn next(&mut self) -> (item: Option<Self::Item>)
        ensures
            old(self).remaining().len() > 0 ==> item == Some(old(self).remaining().first())
                && final(self).remaining() == old(self).remaining().drop_first(),
            old(self).remaining().len() == 0 ==> item is None && final(self).remaining()
                == old(self).remaining(),
    ;

    /// Bounds on the number of elements counted as left: a lower bound, and an upper bound
    /// where one is known.
    fn size_hint(&self) -> (hint: (usize, Option<usize>))
        ensures
            hint == self.bounds(),
            is_size_hint(hint, self.counted()),
    ;

    /// Consumes the sequence and returns the number of elements counted as left.
    fn count(self) -> (total: usize)
        requires
            self.countable(),
        ensures
            total == self.counted(),
    ;
}

/// A sequence that can also be drawn from the back.
pub trait DoubleEndedSequence: Sequence {
    /// Draws the back element, or signals that no element is left.
    fn next_back(&mut self) -> (item: Option<Self::Item>)
        ensures
            old(self).remaining().len() > 0 ==> item == Some(old(self).remaining().last())
                && final(self).remaining() == old(self).remaining().drop_last(),
            old(self).remaining().len() == 0 ==> item is None && final(self).remaining()
                == old(self).remaining(),
    ;
}

/// A sequence that knows exactly how many elements it has left.
pub trait ExactSizeSequence: Sequence {
    /// The number of elements that have not been drawn yet.
    fn len(&self) -> (length: usize)
        ensures
            length == self.remaining().len(),
    ;

    /// The elements that have not been drawn yet are what the sequence counts as left; it can
    /// count them, and it reports their number as both of its bounds.
    proof fn lemma_exact_size(&self)
        ensures
            self.remaining().len() <= usize::MAX,
            self.counted() == self.remaining().len(),
            self.countable(),
            self.bounds() == (
                self.remaining().len() as usize,
                Some(self.remaining().len() as usize),
            ),
    ;
}

/// A sequence that can hand out an independent traversal of the elements it has left.
pub trait Retraversable: Sequence {
    /// A fresh traversal of the remaining elements; drawing from it leaves `self` as it is.
    /// It counts and bounds as `self` does.
    fn fresh(&self) -> (traversal: Self)
        ensures
            traversal.remaining() == self.remaining(),
            traversal.counted() == self.counted(),
            traversal.countable() == self.countable(),
            traversal.bounds() == self.bounds(),
    ;
}

/// The integers from `start` up to, not including, `end`, in increasing order, as 32-bit
/// numbers.
pub open spec fn span(start: int, end: int) -> Seq<u32> {
    Seq::new(
        if start < end {
            (end - start) as nat
        } else {
            0
        },
        |i: int| (start + i) as u32,
    )
}

/// The integers from `start` up to, not including, `end`, in increasing order, as counts.
pub open spec fn span_of_counts(start: int, end: int) -> Seq<usize> {
    Seq::new(
        if start < end {
            (end - start) as nat
        } else {
            0
        },
        |i: int| (start + i) as usize,
    )
}

/// A run of consecutive integers, from `start` up to, not including, `end`.
///
/// It is empty where `end <= start`. Runs of `u32` and of `usize` are sequences.
#[derive(Clone, Copy, Debug)]
pub struct Span<T> {
    pub start: T,
    pub end: T,
}

impl<T> Span<T> {
    /// The run from `start` up to, not including, `end`.
    pub fn new(start: T, end: T) -> (run: Self)
        ensures
            run.start == start,
            run.end == end,
    {
        Span { start, end }
    }
}

impl Sequence for Span<u32> {
    type Item = u32;

    open spec fn remaining(&self) -> Seq<u32> {
        span(self.start as int, self.end as int)
    }

    open spec fn counted(&self) -> nat {
        self.remaining().len()
    }

    open spec fn countable(&self) -> bool {
        true
    }

    open spec fn bounds(&self) -> (usize, Option<usize>) {
        (self.remaining().len() as usize, Some(self.remaining().len() as usize))
    }

    fn next(&mut self) -> (item: Option<u32>) {
        if self.start < self.end {
            let front: u32 = self.start;
            self.start = front + 1;
            assert(self.remaining() =~= old(self).remaining().drop_first());
            Some(front)
        } else {
            None
        }
    }

    fn size_hint(&self) -> (hint: (usize, Option<usize>)) {
        let length: usize = self.len();
        (length, Some(length))
    }

    fn count(self) -> (total: usize) {
        self.len()
    }
}

impl DoubleEndedSequence for Span<u32> {
    fn next_back(&mut self) -> (item: Option<u32>) {
        if self.start < self.end {
            let back: u32 = self.end - 1;
            self.end = back;
            assert(self.remaining() =~= old(self).remaining().drop_last());
            Some(back)
        } else {
            None
        }
    }
}

impl ExactSizeSequence for Span<u32> {
    proof fn lemma_exact_size(&self) {
    }

    fn len(&self) -> (length: usize) {
        if self.start < self.end {
            (self.end - self.start) as usize
        } else {
            0
        }
    }
}

impl Retraversable for Span<u32> {
    fn fresh(&self) -> (traversal: Self) {
        *self
    }
}

impl Sequence for Span<usize> {
    type Item = usize;

    open spec fn remaining(&self) -> Seq<usize> {
        span_of_counts(self.start as int, self.end as int)
    }

    open spec fn counted(&self) -> nat {
        self.remaining().len()
    }

    open spec fn countable(&self) -> bool {
        true
    }

    open spec fn bounds(&self) -> (usize, Option<usize>) {
        (self.remaining().len() as usize, Some(self.remaining().len() as usize))
    }

    fn next(&mut self) -> (item: Option<usize>) {
        if self.start < self.end {
            let front: usize = self.start;
            self.start = front + 1;
            assert(self.remaining() =~= old(self).remaining().drop_first());
            Some(front)
        } else {
            None
        }
    }

    fn size_hint(&self) -> (hint: (usize, Option<usize>)) {
        let length: usize = self.len();
        (length, Some(length))
    }

    fn count(self) -> (total: usize) {
        self.len()
    }
}

impl DoubleEndedSequence for Span<usize> {
    fn next_back(&mut self) -> (item: Option<usize>) {
        if self.start < self.end {
            let back: usize = self.end - 1;
            self.end = back;
            assert(self.remaining() =~= old(self).remaining().drop_last());
            Some(back)
        } else {
            None
        }
    }
}

impl ExactSizeSequence for Span<usize> {
    proof fn lemma_exact_size(&self) {
    }

    fn len(&self) -> (length: usize) {
        if self.start < self.end {
            self.end - self.start
        } else {
            0
        }
    }
}

impl Retraversable for Span<usize> {
    fn fresh(&self) -> (traversal: Self) {
        *self
    }
}

/// The counts from `start` up to, and including, the largest one, in increasing order.
pub open spec fn upward(start: int) -> Seq<usize> {
    Seq::new((usize::MAX - start + 1) as nat, |i: int| (start + i) as usize)
}

/// The counts from a start upwards, with no end but the largest count.
///
/// It reports no upper bound of the number of its elements.
#[derive(Clone, Copy, Debug)]
pub struct Upward {
    /// The count that is drawn next; none where the largest count has been drawn.
    pub next: Option<usize>,
}

impl Upward {
    /// The counts from `start` upwards.
    pub fn new(start: usize) -> (counts: Self)
        ensures
            counts.next == Some(start),
    {
        Upward { next: Some(start) }
    }
}

impl Sequence for Upward {
    type Item = usize;

    open spec fn remaining(&self) -> Seq<usize> {
        match self.next {
            Some(start) => upward(start as int),
            None => Seq::empty(),
        }
    }

    open spec fn counted(&self) -> nat {
        self.remaining().len()
    }

    open spec fn countable(&self) -> bool {
        self.remaining().len() <= usize::MAX
    }

    open spec fn bounds(&self) -> (usize, Option<usize>) {
        (
            if self.remaining().len() <= usize::MAX {
                self.remaining().len() as usize
            } else {
                usize::MAX
            },
            None,
        )
    }

    fn next(&mut self) -> (item: Option<usize>) {
        match self.next {
            Some(front) => {
                self.next = front.checked_add(1);
                assert(self.remaining() =~= old(self).remaining().drop_first());
                Some(front)
            },
            None => None,
        }
    }

    fn size_hint(&self) -> (hint: (usize, Option<usize>)) {
        match self.next {
            Some(0) => (usize::MAX, None),
            Some(start) => (usize::MAX - start + 1, None),
            None => (0, None),
        }
    }

    fn count(self) -> (total: usize) {
        match self.next {
            Some(start) => usize::MAX - start + 1,
            None => 0,
        }
    }
}

impl Retraversable for Upward {
    fn fresh(&self) -> (traversal: Self) {
        *self
    }
}

/// The elements of a slice, front to back, each by reference.
#[derive(Debug)]
pub struct Elements<'a, T> {
    items: &'a [T],
    front: usize,
    back: usize,
}

impl<'a, T> Elements<'a, T> {
    #[verifier::type_invariant]
    spec fn well_formed(&self) -> bool {
        self.front <= self.back <= self.items@.len()
    }

    /// The elements of `items`, none of them drawn yet.
    pub fn new(items: &'a [T]) -> (elements: Self)
        ensures
            elements.remaining() == items@.map_values(|item: T| &item),
    {
        let elements = Elements { items, front: 0, back: items.len() };
        assert(elements.remaining() =~= items@.map_values(|item: T| &item));
        elements
    }
}

impl<'a, T> Sequence for Elements<'a, T> {
    type Item = &'a T;

    closed spec fn remaining(&self) -> Seq<&'a T> {
        if self.front <= self.back <= self.items@.len() {
            self.items@.subrange(self.front as int, self.back as int).map_values(|item: T| &item)
        } else {
            Seq::empty()
        }
    }

    open spec fn counted(&self) -> nat {
        self.remaining().len()
    }

    open spec fn countable(&self) -> bool {
        true
    }

    fn next(&mut self) -> (item: Option<&'a T>) {
        proof {
            use_type_invariant(&*self);
        }
        if self.front < self.back {
            let front: usize = self.front;
            self.front = front + 1;
            assert(self.remaining() =~= old(self).remaining().drop_first());
            Some(&self.items[front])
        } else {
            None
        }
    }

    open spec fn bounds(&self) -> (usize, Option<usize>) {
        (self.remaining().len() as usize, Some(self.remaining().len() as usize))
    }

    fn size_hint(&self) -> (hint: (usize, Option<usize>)) {
        let length: usize = self.len();
        (length, Some(length))
    }

    fn count(self) -> (total: usize) {
        self.len()
    }
}

impl<'a, T> DoubleEndedSequence for Elements<'a, T> {
    fn next_back(&mut self) -> (item: Option<&'a T>) {
        proof {
            use_type_invariant(&*self);
        }
        if self.front < self.back {
            let back: usize = self.back - 1;
            self.back = back;
            assert(self.remaining() =~= old(self).remaining().drop_last());
            Some(&self.items[back])
        } else {
            None
        }
    }
}

impl<'a, T> ExactSizeSequence for Elements<'a, T> {
    proof fn lemma_exact_size(&self) {
    }

    fn len(&self) -> (length: usize) {
        proof {
            use_type_invariant(self);
        }
        self.back - self.front
    }
}

impl<'a, T> Retraversable for Elements<'a, T> {
    fn fresh(&self) -> (traversal: Self) {
        proof {
            use_type_invariant(self);
        }
        Elements { items: self.items, front: self.front, back: self.back }
    }
}

} // verus!
