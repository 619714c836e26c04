use img_resize::{
    mix_size_hint, DoubleEndedSequence, Elements, ExactSizeSequence, IteratorExtensions, Mix,
    PairWith, Retraversable, Sequence, Span, Upward,
};

fn forward(first: Span<u32>, second: Span<u32>) -> Vec<(u32, u32)> {
    let mut mix = first.mix(second);
    let mut pairs = Vec::new();
    while let Some(pair) = mix.next() {
        pairs.push(pair);
    }
    assert_eq!(mix.next(), None);
    pairs
}

fn backward(first: Span<u32>, second: Span<u32>) -> Vec<(u32, u32)> {
    let mut mix = first.mix(second);
    let mut pairs = Vec::new();
    while let Some(pair) = mix.next_back() {
        pairs.push(pair);
    }
    assert_eq!(mix.next_back(), None);
    pairs
}

#[test]
fn mix_pairs_every_element_with_every_element() {
    let a1 = [1, 2, 3];
    let a2 = [4, 5, 6];

    let mut iter = Elements::new(&a1).mix(Elements::new(&a2));

    assert_eq!(iter.next(), Some((&1, &4)));
    assert_eq!(iter.next(), Some((&1, &5)));
    assert_eq!(iter.next(), Some((&1, &6)));

    assert_eq!(iter.next(), Some((&2, &4)));
    assert_eq!(iter.next(), Some((&2, &5)));
    assert_eq!(iter.next(), Some((&2, &6)));

    assert_eq!(iter.next(), Some((&3, &4)));
    assert_eq!(iter.next(), Some((&3, &5)));
    assert_eq!(iter.next(), Some((&3, &6)));

    assert_eq!(iter.next(), None);
}

#[test]
fn mix_of_spans_is_the_product_in_order() {
    assert_eq!(
        forward(Span::new(1u32, 4), Span::new(4u32, 6)),
        vec![(1, 4), (1, 5), (2, 4), (2, 5), (3, 4), (3, 5)]
    );
}

#[test]
fn mix_yields_each_combination_once() {
    let pairs = forward(Span::new(0u32, 7), Span::new(0u32, 5));
    assert_eq!(pairs.len(), 35);
    for i in 0..7u32 {
        for j in 0..5u32 {
            let found = pairs.iter().filter(|pair| **pair == (i, j)).count();
            assert_eq!(found, 1);
            assert_eq!(pairs[(i * 5 + j) as usize], (i, j));
        }
    }
}

#[test]
fn mix_changes_first_component_after_a_whole_traversal() {
    let pairs = forward(Span::new(10u32, 13), Span::new(0u32, 4));
    for (position, pair) in pairs.iter().enumerate() {
        assert_eq!(pair.0, 10 + (position / 4) as u32);
        assert_eq!(pair.1, (position % 4) as u32);
    }
}

#[test]
fn mix_with_empty_first_yields_nothing() {
    assert_eq!(forward(Span::new(0u32, 0), Span::new(0u32, 1000)), vec![]);
    assert_eq!(backward(Span::new(0u32, 0), Span::new(0u32, 1000)), vec![]);
    assert_eq!(forward(Span::new(5u32, 2), Span::new(0u32, 3)), vec![]);
}

#[test]
fn mix_with_empty_second_yields_nothing() {
    assert_eq!(forward(Span::new(0u32, 1000), Span::new(0u32, 0)), vec![]);
    assert_eq!(backward(Span::new(0u32, 1000), Span::new(3u32, 3)), vec![]);
    assert_eq!(forward(Span::new(0, u32::MAX), Span::new(0u32, 0)).len(), 0);
}

#[test]
fn mix_stays_at_its_end() {
    let mut mix = Mix::new(Span::new(0u32, 2), Span::new(0u32, 1));
    assert_eq!(mix.next(), Some((0, 0)));
    assert_eq!(mix.next(), Some((1, 0)));
    for _ in 0..5 {
        assert_eq!(mix.next(), None);
    }
    let mut empty = Mix::new(Span::new(0u32, 3), Span::new(0u32, 0));
    for _ in 0..5 {
        assert_eq!(empty.next(), None);
    }
}

#[test]
fn mix_backward_starts_with_the_element_drawn_at_the_start() {
    assert_eq!(
        backward(Span::new(1u32, 4), Span::new(4u32, 6)),
        vec![(1, 5), (1, 4), (3, 5), (3, 4), (2, 5), (2, 4)]
    );
}

#[test]
fn mix_backward_yields_the_same_pairs() {
    let mut ahead = forward(Span::new(0u32, 6), Span::new(2u32, 9));
    let mut behind = backward(Span::new(0u32, 6), Span::new(2u32, 9));
    assert_eq!(behind.len(), 42);
    ahead.sort();
    behind.sort();
    assert_eq!(ahead, behind);
}

#[test]
fn mix_backward_reverses_where_first_has_one_element() {
    let mut ahead = forward(Span::new(7u32, 8), Span::new(0u32, 5));
    ahead.reverse();
    assert_eq!(backward(Span::new(7u32, 8), Span::new(0u32, 5)), ahead);
}

#[test]
fn mix_backward_does_not_reverse_two_elements() {
    assert_eq!(forward(Span::new(1u32, 3), Span::new(7u32, 8)), vec![(1, 7), (2, 7)]);
    assert_eq!(backward(Span::new(1u32, 3), Span::new(7u32, 8)), vec![(1, 7), (2, 7)]);
}

#[test]
fn mix_drawn_from_both_ends() {
    let mut mix = Span::new(0u32, 3).mix(Span::new(0u32, 3));
    assert_eq!(mix.next(), Some((0, 0)));
    assert_eq!(mix.next_back(), Some((0, 2)));
    assert_eq!(mix.next(), Some((0, 1)));
    assert_eq!(mix.next_back(), Some((2, 2)));
    assert_eq!(mix.next(), Some((2, 0)));
    assert_eq!(mix.next(), Some((2, 1)));
    assert_eq!(mix.next(), Some((1, 0)));
    assert_eq!(mix.next_back(), Some((1, 2)));
    assert_eq!(mix.next_back(), Some((1, 1)));
    assert_eq!(mix.next_back(), None);
    assert_eq!(mix.next(), None);
}

#[test]
fn mix_size_hint_leaves_out_the_current_element() {
    let mix = Span::new(0u32, 3).mix(Span::new(0u32, 2));
    assert_eq!(mix.size_hint(), (4, Some(4)));
    let empty = Span::new(0u32, 0).mix(Span::new(0u32, 2));
    assert_eq!(empty.size_hint(), (0, Some(0)));
}

#[test]
fn mix_size_hint_of_exact_counts_is_their_product() {
    assert_eq!(mix_size_hint((3, Some(3)), (5, Some(5))), (15, Some(15)));
    assert_eq!(mix_size_hint((1, Some(1)), (1, Some(1))), (1, Some(1)));
    assert_eq!(mix_size_hint((0, Some(0)), (9, Some(9))), (0, Some(0)));
}

#[test]
fn mix_size_hint_multiplies_bounds() {
    assert_eq!(mix_size_hint((2, Some(4)), (3, Some(5))), (6, Some(20)));
    assert_eq!(mix_size_hint((2, None), (3, Some(5))), (6, None));
    assert_eq!(mix_size_hint((2, Some(4)), (3, None)), (6, None));
    assert_eq!(mix_size_hint((2, None), (3, None)), (6, None));
}

#[test]
fn mix_size_hint_is_zero_beside_an_empty_sequence() {
    assert_eq!(mix_size_hint((0, Some(0)), (7, None)), (0, Some(0)));
    assert_eq!(mix_size_hint((7, None), (0, Some(0))), (0, Some(0)));
    assert_eq!(mix_size_hint((0, Some(0)), (usize::MAX, Some(usize::MAX))), (0, Some(0)));
}

#[test]
fn mix_size_hint_saturates() {
    assert_eq!(
        mix_size_hint((usize::MAX, Some(usize::MAX)), (2, Some(2))),
        (usize::MAX, None)
    );
    assert_eq!(mix_size_hint((usize::MAX, None), (usize::MAX, None)), (usize::MAX, None));
    assert_eq!(
        mix_size_hint((usize::MAX, Some(usize::MAX)), (1, Some(1))),
        (usize::MAX, Some(usize::MAX))
    );
}

#[test]
fn mix_count_is_the_product_of_the_counts() {
    assert_eq!(Span::new(0u32, 3).mix(Span::new(0u32, 2)).count(), 4);
    assert_eq!(Span::new(0u32, 1).mix(Span::new(0u32, 2)).count(), 0);
    assert_eq!(Span::new(0u32, 9).mix(Span::new(0u32, 0)).count(), 0);
    let mut mix = Span::new(0u32, 5).mix(Span::new(0u32, 4));
    assert_eq!(mix.next(), Some((0, 0)));
    assert_eq!(mix.count(), 16);
}

#[test]
fn pair_with_pairs_the_item_with_every_element() {
    let mut paired = Span::new(3u32, 6).pair_with('a');
    assert_eq!(paired.size_hint(), (3, Some(3)));
    assert_eq!(paired.len(), 3);
    assert_eq!(paired.next(), Some(('a', 3)));
    assert_eq!(paired.next_back(), Some(('a', 5)));
    assert_eq!(paired.len(), 1);
    assert_eq!(paired.next(), Some(('a', 4)));
    assert_eq!(paired.next(), None);
    assert_eq!(paired.next_back(), None);
    assert_eq!(paired.next(), None);
}

#[test]
fn pair_with_counts_the_elements() {
    assert_eq!(PairWith::new(1u8, Span::new(0u32, 12)).count(), 12);
    assert_eq!(PairWith::new(1u8, Span::new(4u32, 4)).count(), 0);
    let mut paired = PairWith::new(true, Span::new(0u32, 4));
    assert_eq!(paired.next(), Some((true, 0)));
    assert_eq!(paired.count(), 3);
}

#[test]
fn pair_with_fresh_traversal_is_independent() {
    let mut paired = PairWith::new(9u32, Span::new(0u32, 3));
    assert_eq!(paired.next(), Some((9, 0)));
    let mut second = paired.fresh();
    assert_eq!(second.next(), Some((9, 1)));
    assert_eq!(second.next(), Some((9, 2)));
    assert_eq!(second.next(), None);
    assert_eq!(paired.next(), Some((9, 1)));
}

#[test]
fn mix_of_a_pairing() {
    let mut mix = Span::new(0u32, 2).pair_with('k').mix(Span::new(5u32, 7));
    assert_eq!(mix.next(), Some((('k', 0), 5)));
    assert_eq!(mix.next(), Some((('k', 0), 6)));
    assert_eq!(mix.next(), Some((('k', 1), 5)));
    assert_eq!(mix.next(), Some((('k', 1), 6)));
    assert_eq!(mix.next(), None);
}

#[test]
fn span_draws_from_both_ends() {
    let mut span = Span::new(2u32, 6);
    assert_eq!(span.len(), 4);
    assert_eq!(span.size_hint(), (4, Some(4)));
    assert_eq!(span.next(), Some(2));
    assert_eq!(span.next_back(), Some(5));
    assert_eq!(span.next_back(), Some(4));
    assert_eq!(span.next(), Some(3));
    assert_eq!(span.next(), None);
    assert_eq!(span.next_back(), None);
    assert_eq!(span.len(), 0);
    assert_eq!(Span::new(6u32, 2).count(), 0);
    assert_eq!(Span::new(0, u32::MAX).count(), u32::MAX as usize);
}

#[test]
fn elements_draw_from_both_ends() {
    let items = ["a", "b", "c"];
    let mut elements = Elements::new(&items);
    assert_eq!(elements.size_hint(), (3, Some(3)));
    assert_eq!(elements.next(), Some(&"a"));
    let mut rest = elements.fresh();
    assert_eq!(elements.next_back(), Some(&"c"));
    assert_eq!(elements.len(), 1);
    assert_eq!(elements.next(), Some(&"b"));
    assert_eq!(elements.next(), None);
    assert_eq!(elements.next_back(), None);
    assert_eq!(rest.next(), Some(&"b"));
    assert_eq!(rest.count(), 1);
    let nothing: [u8; 0] = [];
    assert_eq!(Elements::new(&nothing).next(), None);
}

#[test]
fn mix_size_hint_of_spans_counts_what_is_left_of_the_first() {
    let mut mix = Span::new(0u32, 3).mix(Span::new(0u32, 3));
    assert_eq!(mix.size_hint(), (6, Some(6)));
    assert_eq!(mix.next(), Some((0, 0)));
    assert_eq!(mix.size_hint(), (6, Some(6)));
    assert_eq!(mix.next(), Some((0, 1)));
    assert_eq!(mix.next(), Some((0, 2)));
    assert_eq!(mix.next(), Some((1, 0)));
    assert_eq!(mix.size_hint(), (3, Some(3)));
    assert_eq!(mix.count(), 3);
}

#[test]
fn mix_size_hint_of_the_largest_spans_saturates() {
    let mix = Span::new(0usize, usize::MAX).mix(Span::new(0usize, usize::MAX));
    assert_eq!(mix.size_hint(), (usize::MAX, None));
}

#[test]
fn mix_size_hint_of_an_empty_first_beside_an_unbounded_second_is_zero() {
    let mut mix = Span::new(0u32, 0).mix(Upward::new(0));
    assert_eq!(mix.size_hint(), (0, Some(0)));
    assert_eq!(mix.next(), None);
    assert_eq!(mix.next(), None);
}

#[test]
fn mix_size_hint_beside_an_unbounded_second_is_unbounded() {
    let mut mix = Span::new(0u32, 3).mix(Upward::new(0));
    assert_eq!(mix.size_hint(), (usize::MAX, None));
    assert_eq!(mix.next(), Some((0, 0)));
    assert_eq!(mix.next(), Some((0, 1)));
    assert_eq!(mix.next(), Some((0, 2)));
    assert_eq!(mix.size_hint(), (usize::MAX, None));
}

#[test]
fn mix_of_an_unbounded_first_with_an_empty_second_yields_nothing() {
    let mut mix = Upward::new(0).mix(Span::new(0u32, 0));
    assert_eq!(mix.size_hint(), (0, Some(0)));
    for _ in 0..5 {
        assert_eq!(mix.next(), None);
    }
}

#[test]
fn upward_counts_to_the_largest_count() {
    let mut counts = Upward::new(usize::MAX - 2);
    assert_eq!(counts.size_hint(), (3, None));
    let mut rest = counts.fresh();
    assert_eq!(counts.next(), Some(usize::MAX - 2));
    assert_eq!(counts.next(), Some(usize::MAX - 1));
    assert_eq!(counts.size_hint(), (1, None));
    assert_eq!(counts.next(), Some(usize::MAX));
    assert_eq!(counts.size_hint(), (0, None));
    assert_eq!(counts.next(), None);
    assert_eq!(counts.next(), None);
    assert_eq!(rest.next(), Some(usize::MAX - 2));
    assert_eq!(rest.count(), 2);
    assert_eq!(Upward::new(0).size_hint(), (usize::MAX, None));
    assert_eq!(Upward::new(1).size_hint(), (usize::MAX, None));
    assert_eq!(Upward::new(1).count(), usize::MAX);
}

#[test]
fn span_of_counts_draws_from_both_ends() {
    let mut span = Span::new(usize::MAX - 3, usize::MAX);
    assert_eq!(span.len(), 3);
    assert_eq!(span.size_hint(), (3, Some(3)));
    assert_eq!(span.next(), Some(usize::MAX - 3));
    assert_eq!(span.next_back(), Some(usize::MAX - 1));
    assert_eq!(span.fresh().count(), 1);
    assert_eq!(span.next(), Some(usize::MAX - 2));
    assert_eq!(span.next(), None);
    assert_eq!(Span::new(0usize, usize::MAX).count(), usize::MAX);
    assert_eq!(Span::new(5usize, 5).next(), None);
}

#[test]
fn pair_with_reports_the_bounds_of_what_is_left() {
    let mut paired = Span::new(3u32, 6).pair_with('a');
    assert_eq!(paired.next(), Some(('a', 3)));
    assert_eq!(paired.size_hint(), (2, Some(2)));
    let unbounded = Upward::new(0).pair_with(1u8);
    assert_eq!(unbounded.size_hint(), (usize::MAX, None));
}

#[test]
fn mix_can_be_mixed_and_paired_again() {
    let mut mix = Span::new(0u32, 2).mix(Span::new(5u32, 7)).mix(Span::new(0usize, 2));
    assert_eq!(mix.size_hint(), (4, Some(4)));
    assert_eq!(mix.next(), Some(((0, 5), 0)));
    assert_eq!(mix.next(), Some(((0, 5), 1)));
    assert_eq!(mix.next(), Some(((0, 6), 0)));
    assert_eq!(mix.next(), Some(((0, 6), 1)));
    assert_eq!(mix.next(), Some(((1, 5), 0)));
    assert_eq!(mix.next(), Some(((1, 5), 1)));
    assert_eq!(mix.next(), Some(((1, 6), 0)));
    assert_eq!(mix.next(), Some(((1, 6), 1)));
    assert_eq!(mix.next(), None);

    let mut inner = Span::new(7u32, 9).mix(Span::new(0u32, 2)).pair_with('z');
    assert_eq!(inner.next(), Some(('z', (7, 0))));
    assert_eq!(inner.size_hint(), (2, Some(2)));

    let mut outer = Span::new(0u32, 2).mix(Span::new(3u32, 4).mix(Span::new(8u32, 10)));
    assert_eq!(outer.next(), Some((0, (3, 8))));
    assert_eq!(outer.next(), Some((0, (3, 9))));
    assert_eq!(outer.next(), Some((1, (3, 8))));
    assert_eq!(outer.next(), Some((1, (3, 9))));
    assert_eq!(outer.next(), None);
}
