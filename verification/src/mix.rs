//! The lazy cartesian product of two sequences.

use crate::pair_with::{PairWith, PairWithView};
use crate::product::{
    lemma_pairs_reverse, lemma_product_empty, lemma_product_front, lemma_product_reverse, pairs,
    product,
};
use crate::sequence::{
    is_size_hint, DoubleEndedSequence, ExactSizeSequence, Retraversable, Sequence,
};
use vstd::prelude::*;
use vstd::seq_lib::lemma_multiset_commutative;

verus! {

/// Every element of a first sequence paired with every element of a second one.
///
/// For each element drawn from the first sequence, a fresh traversal of the second sequence is
/// paired with it; only when that traversal is used up is the next element drawn.
#[derive(Debug, PartialEq, Eq, Clone)]
pub struct Mix<First: Sequence, Second: Retraversable> where First::Item: Copy {
    first: First,
    second: Second,
    pair_with_iter: Option<PairWith<First::Item, Second>>,
}

/// What a [`Mix`] stands for.
pub ghost struct MixView<A, B> {
    /// The element of the first sequence that was drawn last, with the elements of the second
    /// sequence that it has not been paired with yet. Absent where the first sequence was
    /// found empty when an element was to be drawn.
    pub current: Option<PairWithView<A, B>>,
    /// The elements of the first sequence that have not been drawn yet.
    pub first: Seq<A>,
    /// The elements of the second sequence, of which every drawn element gets a traversal.
    pub second: Seq<B>,
}

impl<A, B> MixView<A, B> {
    /// The state in which a mix of `first` and `second` starts: the front element of `first`
    /// is drawn at once.
    pub open spec fn start(first: Seq<A>, second: Seq<B>) -> Self {
        if first.len() > 0 {
            MixView {
                current: Some(PairWithView { item: first.first(), elements: second }),
                first: first.drop_first(),
                second,
            }
        } else {
            MixView { current: None, first, second }
        }
    }

    /// The elements of the second sequence that the current element is still to be paired
    /// with.
    pub open spec fn pending(self) -> Seq<B> {
        match self.current {
            Some(inner) => inner.elements,
            None => Seq::empty(),
        }
    }

    /// The pairs that the current element still has to give, front to back.
    pub open spec fn current_pairs(self) -> Seq<(A, B)> {
        match self.current {
            Some(inner) => pairs(inner.item, inner.elements),
            None => Seq::empty(),
        }
    }

    /// The pairs that drawing from the front gives from here on, in their order.
    pub open spec fn forward(self) -> Seq<(A, B)> {
        self.current_pairs() + product(self.first, self.second)
    }

    /// The pairs that drawing from the back gives from here on, in their order.
    pub open spec fn backward(self) -> Seq<(A, B)> {
        self.current_pairs().reverse() + product(self.first.reverse(), self.second.reverse())
    }

    /// One draw from the front: the pair that it gives, if any, and the state that it leaves.
    pub open spec fn step(self) -> (Option<(A, B)>, Self) {
        if self.pending().len() > 0 {
            let inner = self.current->0;
            (
                Some((inner.item, inner.elements.first())),
                MixView {
                    current: Some(
                        PairWithView { item: inner.item, elements: inner.elements.drop_first() },
                    ),
                    ..self
                },
            )
        } else if self.first.len() == 0 {
            (None, MixView { current: None, ..self })
        } else if self.second.len() > 0 {
            (
                Some((self.first.first(), self.second.first())),
                MixView {
                    current: Some(
                        PairWithView {
                            item: self.first.first(),
                            elements: self.second.drop_first(),
                        },
                    ),
                    first: self.first.drop_first(),
                    second: self.second,
                },
            )
        } else {
            (
                None,
                MixView {
                    current: Some(PairWithView { item: self.first.first(), elements: self.second }),
                    first: self.first.drop_first(),
                    second: self.second,
                },
            )
        }
    }

    /// One draw from the back: the pair that it gives, if any, and the state that it leaves.
    pub open spec fn step_back(self) -> (Option<(A, B)>, Self) {
        if self.pending().len() > 0 {
            let inner = self.current->0;
            (
                Some((inner.item, inner.elements.last())),
                MixView {
                    current: Some(
                        PairWithView { item: inner.item, elements: inner.elements.drop_last() },
                    ),
                    ..self
                },
            )
        } else if self.first.len() == 0 {
            (None, MixView { current: None, ..self })
        } else if self.second.len() > 0 {
            (
                Some((self.first.last(), self.second.last())),
                MixView {
                    current: Some(
                        PairWithView {
                            item: self.first.last(),
                            elements: self.second.drop_last(),
                        },
                    ),
                    first: self.first.drop_last(),
                    second: self.second,
                },
            )
        } else {
            (
                None,
                MixView {
                    current: Some(PairWithView { item: self.first.last(), elements: self.second }),
                    first: self.first.drop_last(),
                    second: self.second,
                },
            )
        }
    }

    /// A draw from the front gives the front pair of `forward` and leaves the rest of it; where
    /// `forward` is empty it gives nothing, and `forward` stays empty.
    pub proof fn lemma_step_draws_front(self)
        ensures
            self.forward().len() > 0 ==> self.step().0 == Some(self.forward().first())
                && self.step().1.forward() == self.forward().drop_first(),
            self.forward().len() == 0 ==> self.step().0 is None && self.step().1.forward().len()
                == 0,
    {
        let (_, after) = self.step();
        if self.pending().len() > 0 {
            let inner = self.current->0;
            assert(after.forward() =~= self.forward().drop_first());
        } else if self.first.len() == 0 {
            lemma_product_empty(self.first, self.second);
        } else {
            lemma_product_front(self.first, self.second);
            if self.second.len() > 0 {
                assert(after.forward() =~= self.forward().drop_first());
            } else {
                lemma_product_empty(self.first, self.second);
                lemma_product_empty(after.first, after.second);
            }
        }
    }

    /// A draw from the back gives the front pair of `backward` and leaves the rest of it; where
    /// `backward` is empty it gives nothing, and `backward` stays empty.
    pub proof fn lemma_step_back_draws_front(self)
        ensures
            self.backward().len() > 0 ==> self.step_back().0 == Some(self.backward().first())
                && self.step_back().1.backward() == self.backward().drop_first(),
            self.backward().len() == 0 ==> self.step_back().0 is None
                && self.step_back().1.backward().len() == 0,
    {
        let (_, after) = self.step_back();
        let turned = self.first.reverse();
        let second = self.second.reverse();
        if self.pending().len() > 0 {
            let inner = self.current->0;
            assert(pairs(inner.item, inner.elements.drop_last()).reverse() =~= pairs(
                inner.item,
                inner.elements,
            ).reverse().drop_first());
            assert(after.backward() =~= self.backward().drop_first());
        } else if self.first.len() == 0 {
            lemma_product_empty(turned, second);
        } else {
            lemma_product_front(turned, second);
            assert(turned.drop_first() =~= self.first.drop_last().reverse());
            if self.second.len() > 0 {
                assert(pairs(self.first.last(), self.second.drop_last()).reverse() =~= pairs(
                    turned.first(),
                    second,
                ).drop_first());
                assert(after.backward() =~= self.backward().drop_first());
            } else {
                lemma_product_empty(turned, second);
                lemma_product_empty(after.first.reverse(), second);
            }
        }
    }
}

impl<First: Sequence, Second: Retraversable> View for Mix<First, Second> where
    First::Item: Copy,
 {
    type V = MixView<First::Item, Second::Item>;

    closed spec fn view(&self) -> Self::V {
        MixView {
            current: match self.pair_with_iter {
                Some(inner) => Some(inner@),
                None => None,
            },
            first: self.first.remaining(),
            second: self.second.remaining(),
        }
    }
}

impl<First: Sequence, Second: Retraversable> Mix<First, Second> where First::Item: Copy {
    /// The first sequence, as it stands: it holds the elements that have not been drawn from
    /// it yet.
    pub closed spec fn first_sequence(&self) -> First {
        self.first
    }

    /// The second sequence, of which every drawn element gets a fresh traversal.
    pub closed spec fn second_sequence(&self) -> Second {
        self.second
    }

    /// A mix has the elements of its two sequences to pair. It counts the product of what
    /// they count, where both can count and the product is a count, and it reports their
    /// bounds, multiplied.
    pub proof fn lemma_sequences(&self)
        ensures
            self@.first == self.first_sequence().remaining(),
            self@.second == self.second_sequence().remaining(),
            self.counted() == self.first_sequence().counted() * self.second_sequence().counted(),
            self.countable() <==> self.first_sequence().countable()
                && self.second_sequence().countable() && self.first_sequence().counted()
                * self.second_sequence().counted() <= usize::MAX,
            self.bounds() == mixed_size_hint(
                self.first_sequence().bounds(),
                self.second_sequence().bounds(),
            ),
    {
    }

    /// Mixes `first` with `second`. The front element of `first` is drawn at once.
    ///
    /// Drawn from the front, the mix gives the cartesian product of what `first` and `second`
    /// had left; where either is empty it gives nothing.
    pub fn new(first: First, second: Second) -> (mix: Self)
        ensures
            mix@ == MixView::start(first.remaining(), second.remaining()),
            mix.first_sequence().remaining() == mix@.first,
            mix.second_sequence() == second,
            mix@.forward() == product(first.remaining(), second.remaining()),
            first.remaining().len() == 0 || second.remaining().len() == 0
                ==> mix@.forward().len() == 0 && mix@.backward().len() == 0,
    {
        let mut first = first;
        let ghost elements = first.remaining();
        let pair_with_iter = match first.next() {
            Some(item) => Some(PairWith::new(item, second.fresh())),
            None => None,
        };
        proof {
            lemma_mix_forward(elements, second.remaining());
            if elements.len() == 0 || second.remaining().len() == 0 {
                lemma_mix_empty(elements, second.remaining());
            }
        }
        Self { first, second, pair_with_iter }
    }
}

impl<First: Sequence, Second: Retraversable> Sequence for Mix<First, Second> where
    First::Item: Copy,
 {
    type Item = (First::Item, Second::Item);

    /// The pairs that drawing from the front gives from here on.
    open spec fn remaining(&self) -> Seq<(First::Item, Second::Item)> {
        self@.forward()
    }

    /// The product of what the two sequences count as left. The pairs that the current
    /// element still has to give are not counted.
    closed spec fn counted(&self) -> nat {
        self.first.counted() * self.second.counted()
    }

    /// Whether both sequences can count and the product of what they count is a count.
    closed spec fn countable(&self) -> bool {
        &&& self.first.countable()
        &&& self.second.countable()
        &&& self.first.counted() * self.second.counted() <= usize::MAX
    }

    /// The bounds that the two sequences report, multiplied.
    closed spec fn bounds(&self) -> (usize, Option<usize>) {
        mixed_size_hint(self.first.bounds(), self.second.bounds())
    }

    /// Draws the next pair from the front.
    ///
    /// The current element of the first sequence gives its next pair. Where it has none
    /// left, the next element of the first sequence is drawn and starts on a fresh traversal
    /// of the second sequence; where the first sequence has none left either, the mix is at
    /// its end, and stays there.
    fn next(&mut self) -> (pair: Option<(First::Item, Second::Item)>)
        ensures
            (pair, final(self)@) == old(self)@.step(),
            final(self).first_sequence().remaining() == final(self)@.first,
            final(self).second_sequence() == old(self).second_sequence(),
            old(self)@.forward().len() > 0 ==> pair == Some(old(self)@.forward().first())
                && final(self)@.forward() == old(self)@.forward().drop_first(),
            old(self)@.forward().len() == 0 ==> pair is None && final(self)@.forward().len()
                == 0,
    {
        proof {
            old(self)@.lemma_step_draws_front();
        }
        if let Some(inner) = &mut self.pair_with_iter {
            if let Some(next) = inner.next() {
                return Some(next);
            }
        }
        self.pair_with_iter = match self.first.next() {
            Some(item) => Some(PairWith::new(item, self.second.fresh())),
            None => None,
        };
        match &mut self.pair_with_iter {
            Some(inner) => inner.next(),
            None => None,
        }
    }

    /// Bounds on the number of pairs that the elements not yet drawn from the first sequence
    /// will give: the bounds that the two sequences report, multiplied.
    ///
    /// The pairs that the current element still has to give are not counted.
    fn size_hint(&self) -> (hint: (usize, Option<usize>))
        ensures
            hint == mixed_size_hint(
                self.first_sequence().bounds(),
                self.second_sequence().bounds(),
            ),
            self.first_sequence().remaining() == self@.first,
            self.second_sequence().remaining() == self@.second,
            is_size_hint(
                hint,
                self.first_sequence().counted() * self.second_sequence().counted(),
            ),
    {
        let first = self.first.size_hint();
        let second = self.second.size_hint();
        proof {
            lemma_mixed_size_hint_bounds(
                first,
                second,
                self.first.counted(),
                self.second.counted(),
            );
        }
        mix_size_hint(first, second)
    }

    /// Consumes the mix and returns the number of pairs that the elements not yet drawn from
    /// the first sequence would have given: the product of the counts of the two sequences.
    fn count(self) -> (total: usize)
        ensures
            total == self.first_sequence().counted() * self.second_sequence().counted(),
            self.first_sequence().remaining() == self@.first,
            self.second_sequence().remaining() == self@.second,
    {
        let first: usize = self.first.count();
        let second: usize = self.second.count();
        first * second
    }
}

impl<First: Retraversable, Second: Retraversable> Retraversable for Mix<First, Second> where
    First::Item: Copy,
 {
    fn fresh(&self) -> (traversal: Self)
        ensures
            traversal@ == self@,
    {
        Mix {
            first: self.first.fresh(),
            second: self.second.fresh(),
            pair_with_iter: match &self.pair_with_iter {
                Some(inner) => Some(inner.fresh()),
                None => None,
            },
        }
    }
}

impl<First: ExactSizeSequence, Second: ExactSizeSequence + Retraversable> Mix<First, Second> where
    First::Item: Copy,
 {
    /// Exact counts: where both sequences know exactly how many elements they have left, and
    /// the product of the two numbers is a count, a mix counts that product, and reports it
    /// as both of its bounds.
    pub proof fn lemma_exact_size(&self)
        requires
            self@.first.len() * self@.second.len() <= usize::MAX,
        ensures
            self.countable(),
            self.counted() == self@.first.len() * self@.second.len(),
            self.bounds() == (
                (self@.first.len() * self@.second.len()) as usize,
                Some((self@.first.len() * self@.second.len()) as usize),
            ),
    {
        self.first.lemma_exact_size();
        self.second.lemma_exact_size();
        lemma_mixed_size_hint_exact(
            self.first.remaining().len() as usize,
            self.second.remaining().len() as usize,
        );
    }
}

impl<First: DoubleEndedSequence, Second: DoubleEndedSequence + Retraversable> Mix<
    First,
    Second,
> where First::Item: Copy {
    /// Draws the next pair from the back.
    ///
    /// The current element of the first sequence gives its last pair. Where it has none
    /// left, the back element of the first sequence is drawn and starts on a fresh traversal
    /// of the second sequence, from its back; where the first sequence has none left either,
    /// nothing is given.
    pub fn next_back(&mut self) -> (pair: Option<(First::Item, Second::Item)>)
        ensures
            (pair, final(self)@) == old(self)@.step_back(),
            final(self).first_sequence().remaining() == final(self)@.first,
            final(self).second_sequence() == old(self).second_sequence(),
            old(self)@.backward().len() > 0 ==> pair == Some(old(self)@.backward().first())
                && final(self)@.backward() == old(self)@.backward().drop_first(),
            old(self)@.backward().len() == 0 ==> pair is None && final(self)@.backward().len()
                == 0,
    {
        proof {
            old(self)@.lemma_step_back_draws_front();
        }
        if let Some(inner) = &mut self.pair_with_iter {
            if let Some(next_back) = inner.next_back() {
                return Some(next_back);
            }
        }
        self.pair_with_iter = match self.first.next_back() {
            Some(item) => Some(PairWith::new(item, self.second.fresh())),
            None => None,
        };
        match &mut self.pair_with_iter {
            Some(inner) => inner.next_back(),
            None => None,
        }
    }
}

/// The bounds of a mix, from the bounds `first` and `second` of its two sequences.
///
/// The lower bound is the product of the lower bounds, or the largest count where the product
/// is larger than that. The upper bound is zero where either upper bound is zero; else it is
/// the product of the upper bounds, where both are known and the product is a count.
pub open spec fn mixed_size_hint(
    first: (usize, Option<usize>),
    second: (usize, Option<usize>),
) -> (usize, Option<usize>) {
    (
        if first.0 * second.0 <= usize::MAX {
            (first.0 * second.0) as usize
        } else {
            usize::MAX
        },
        if first.1 == Some(0usize) || second.1 == Some(0usize) {
            Some(0usize)
        } else if first.1 is Some && second.1 is Some && first.1->0 * second.1->0 <= usize::MAX {
            Some((first.1->0 * second.1->0) as usize)
        } else {
            None
        },
    )
}

/// Computes the bounds of a mix from the bounds of its two sequences.
pub fn mix_size_hint(first: (usize, Option<usize>), second: (usize, Option<usize>)) -> (hint: (
    usize,
    Option<usize>,
))
    ensures
        hint == mixed_size_hint(first, second),
{
    let (first_min, first_max) = first;
    let (second_min, second_max) = second;
    let min: usize = first_min.checked_mul(second_min).unwrap_or(usize::MAX);
    let max: Option<usize> = match (first_max, second_max) {
        (Some(0), _) | (_, Some(0)) => Some(0),
        (Some(first_max), Some(second_max)) => first_max.checked_mul(second_max),
        (_, _) => None,
    };
    (min, max)
}

/// Bounds of the two sequences give bounds of the product of their lengths.
pub proof fn lemma_mixed_size_hint_bounds(
    first: (usize, Option<usize>),
    second: (usize, Option<usize>),
    m: nat,
    n: nat,
)
    requires
        is_size_hint(first, m),
        is_size_hint(second, n),
    ensures
        is_size_hint(mixed_size_hint(first, second), m * n),
{
    assert(first.0 * second.0 <= m * n) by (nonlinear_arith)
        requires
            first.0 <= m,
            second.0 <= n,
    ;
    if first.1 == Some(0usize) || second.1 == Some(0usize) {
        assert(m * n == 0) by (nonlinear_arith)
            requires
                m == 0 || n == 0,
        ;
    } else if first.1 is Some && second.1 is Some {
        let f = first.1->0;
        let s = second.1->0;
        assert(m * n <= f * s) by (nonlinear_arith)
            requires
                m <= f,
                n <= s,
        ;
    }
}

/// Exact counts: where both sequences report their exact counts `m` and `n`, and `m * n` is a
/// count, the bounds of the mix are exact too, both the product `m * n`.
pub proof fn lemma_mixed_size_hint_exact(m: usize, n: usize)
    requires
        m * n <= usize::MAX,
    ensures
        mixed_size_hint((m, Some(m)), (n, Some(n))) == ((m * n) as usize, Some((m * n) as usize)),
{
    if m == 0 || n == 0 {
        assert(m * n == 0) by (nonlinear_arith)
            requires
                m == 0 || n == 0,
        ;
    }
}

/// Saturation: where one sequence reports the largest count as its lower bound and the other
/// reports at least two, or the other way round, the lower bound of the mix is the largest
/// count; and where their upper bounds are such, the mix has no upper bound.
pub proof fn lemma_mixed_size_hint_saturated(
    first: (usize, Option<usize>),
    second: (usize, Option<usize>),
)
    ensures
        (first.0 == usize::MAX && second.0 >= 2) || (first.0 >= 2 && second.0 == usize::MAX)
            ==> mixed_size_hint(first, second).0 == usize::MAX,
        (first.1 == Some(usize::MAX) && second.1 is Some && second.1->0 >= 2) || (first.1 is Some
            && first.1->0 >= 2 && second.1 == Some(usize::MAX)) ==> mixed_size_hint(
            first,
            second,
        ).1 is None,
{
    assert(forall|a: int, b: int| a >= 2 && b >= 1 ==> #[trigger] (a * b) > b) by (nonlinear_arith);
    assert(forall|a: int, b: int| a >= 1 && b >= 2 ==> #[trigger] (a * b) > a) by (nonlinear_arith);
}

/// Emptiness in the bounds: where either sequence reports that it has no element, the mix
/// reports that it gives no pair, whatever the other sequence reports, be it no upper bound
/// at all.
pub proof fn lemma_mixed_size_hint_empty(
    first: (usize, Option<usize>),
    second: (usize, Option<usize>),
)
    requires
        first == (0usize, Some(0usize)) || second == (0usize, Some(0usize)),
    ensures
        mixed_size_hint(first, second) == (0usize, Some(0usize)),
{
    assert(first.0 * second.0 == 0) by (nonlinear_arith)
        requires
            first.0 == 0 || second.0 == 0,
    ;
}

/// Cartesian completeness of a mix: drawn from the front, a mix that starts on `first` and
/// `second` gives the cartesian product of the two, no more and no less, in its order.
pub proof fn lemma_mix_forward<A, B>(first: Seq<A>, second: Seq<B>)
    ensures
        MixView::start(first, second).forward() == product(first, second),
{
    if first.len() > 0 {
        lemma_product_front(first, second);
    } else {
        lemma_product_empty(first, second);
        assert(MixView::start(first, second).forward() =~= product(first, second));
    }
}

/// Emptiness: a mix in which either sequence is empty gives no pair, from either end, however
/// many elements the other sequence has.
pub proof fn lemma_mix_empty<A, B>(first: Seq<A>, second: Seq<B>)
    requires
        first.len() == 0 || second.len() == 0,
    ensures
        MixView::start(first, second).forward() == Seq::<(A, B)>::empty(),
        MixView::start(first, second).backward() == Seq::<(A, B)>::empty(),
{
    let start = MixView::start(first, second);
    lemma_product_empty(start.first, start.second);
    lemma_product_empty(start.first.reverse(), start.second.reverse());
    assert(start.forward() =~= Seq::<(A, B)>::empty());
    assert(start.backward() =~= Seq::<(A, B)>::empty());
}

/// What a mix that starts on `first` and `second` gives when it is drawn from the back: the
/// element that was drawn at the start comes first, paired with `second` in reverse; the other
/// elements of `first` follow in reverse order, each paired with `second` in reverse.
pub proof fn lemma_mix_backward<A, B>(first: Seq<A>, second: Seq<B>)
    requires
        first.len() > 0,
    ensures
        MixView::start(first, second).backward() == pairs(first.first(), second.reverse())
            + product(first.drop_first(), second).reverse(),
{
    lemma_pairs_reverse(first.first(), second);
    lemma_product_reverse(first.drop_first(), second);
}

/// Reverse symmetry, as far as it holds of every mix: drawn from the back, a mix gives the
/// same pairs as drawn from the front, each as often; the elements of the second sequence
/// come in reverse order within each element of the first.
pub proof fn lemma_mix_backward_same_pairs<A, B>(first: Seq<A>, second: Seq<B>)
    ensures
        MixView::start(first, second).backward().to_multiset() == MixView::start(
            first,
            second,
        ).forward().to_multiset(),
{
    let start = MixView::start(first, second);
    let head = start.current_pairs();
    let tail = product(start.first, start.second);
    lemma_product_reverse(start.first, start.second);
    head.lemma_reverse_to_multiset();
    tail.lemma_reverse_to_multiset();
    lemma_multiset_commutative(head, tail);
    lemma_multiset_commutative(head.reverse(), tail.reverse());
}

/// Reverse symmetry in full: where the first sequence has at most one element, or the second
/// has none, a mix drawn from the back gives the reverse of what it gives drawn from the
/// front.
pub proof fn lemma_mix_backward_reverses<A, B>(first: Seq<A>, second: Seq<B>)
    requires
        first.len() <= 1 || second.len() == 0,
    ensures
        MixView::start(first, second).backward() == MixView::start(
            first,
            second,
        ).forward().reverse(),
{
    let start = MixView::start(first, second);
    if first.len() == 0 || second.len() == 0 {
        lemma_mix_empty(first, second);
        assert(start.backward() =~= start.forward().reverse());
    } else {
        lemma_product_empty(start.first, start.second);
        lemma_product_empty(start.first.reverse(), start.second.reverse());
        assert(start.backward() =~= start.forward().reverse());
    }
}

} // verus!
