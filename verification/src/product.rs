//! The cartesian product of two finite sequences, and what holds of it.
//!
//! The product lists, for each element of the first sequence in turn, that element paired
//! with every element of the second sequence in turn.

use vstd::arithmetic::div_mod::{lemma_fundamental_div_mod, lemma_fundamental_div_mod_converse};
use vstd::prelude::*;

verus! {

/// `item` paired with each element of `elements`, in their order.
pub open spec fn pairs<A, B>(item: A, elements: Seq<B>) -> Seq<(A, B)> {
    Seq::new(elements.len(), |j: int| (item, elements[j]))
}

/// The cartesian product of `first` and `second`.
///
/// With `n` the length of `second`, position `i * n + j` holds the pair of `first[i]` and
/// `second[j]`.
pub open spec fn product<A, B>(first: Seq<A>, second: Seq<B>) -> Seq<(A, B)> {
    Seq::new(
        first.len() * second.len(),
        |k: int| (first[k / (second.len() as int)], second[k % (second.len() as int)]),
    )
}

/// In a grid of rows of `n` cells, the cell `j` of row `i` stands at `i * n + j`, and no
/// other cell does.
pub proof fn lemma_grid_position(i: int, j: int, m: int, n: int)
    requires
        0 <= i < m,
        0 <= j < n,
    ensures
        0 <= i * n + j < m * n,
        (i * n + j) / n == i,
        (i * n + j) % n == j,
{
    lemma_fundamental_div_mod_converse(i * n + j, n, i, j);
    assert(0 <= i * n && (i + 1) * n <= m * n && (i + 1) * n == i * n + n) by (nonlinear_arith)
        requires
            0 <= i < m,
            0 < n,
    ;
}

/// A position `k` of a grid of `m` rows of `n` cells lies in row `k / n`, at cell `k % n`.
pub proof fn lemma_grid_cell(k: int, m: int, n: int)
    requires
        0 <= k < m * n,
        0 <= m,
        0 <= n,
    ensures
        0 < n,
        0 <= k / n < m,
        0 <= k % n < n,
        (k / n) * n + k % n == k,
{
    assert(n != 0 && 0 < m) by (nonlinear_arith)
        requires
            0 <= k < m * n,
            0 <= m,
            0 <= n,
    ;
    lemma_fundamental_div_mod(k, n);
    assert(0 <= k / n < m && 0 <= k % n < n) by (nonlinear_arith)
        requires
            0 <= k < m * n,
            0 < n,
            k == n * (k / n) + k % n,
            0 <= k % n < n,
    ;
    assert(n * (k / n) == (k / n) * n) by (nonlinear_arith);
}

/// Cartesian completeness: the product of a sequence of `m` elements with one of `n` elements
/// has `m * n` pairs; the pair of the element `i` of the first with the element `j` of the
/// second stands at position `i * n + j`, and no two such pairs share a position. So the
/// positions follow the first sequence outside and the second sequence inside.
pub proof fn lemma_product_complete<A, B>(first: Seq<A>, second: Seq<B>)
    ensures
        product(first, second).len() == first.len() * second.len(),
        forall|i: int, j: int|
            0 <= i < first.len() && 0 <= j < second.len() ==> {
                &&& 0 <= #[trigger] (i * second.len() + j) < product(first, second).len()
                &&& product(first, second)[i * second.len() + j] == (first[i], second[j])
            },
        forall|i: int, j: int, p: int, q: int|
            0 <= i < first.len() && 0 <= j < second.len() && 0 <= p < first.len() && 0 <= q
                < second.len() && #[trigger] (i * second.len() + j) == #[trigger] (p
                * second.len() + q) ==> i == p && j == q,
{
    let m = first.len() as int;
    let n = second.len() as int;
    assert forall|i: int, j: int| 0 <= i < first.len() && 0 <= j < second.len() implies {
        &&& 0 <= #[trigger] (i * second.len() + j) < product(first, second).len()
        &&& product(first, second)[i * second.len() + j] == (first[i], second[j])
    } by {
        lemma_grid_position(i, j, m, n);
    }
    assert forall|i: int, j: int, p: int, q: int|
        0 <= i < first.len() && 0 <= j < second.len() && 0 <= p < first.len() && 0 <= q
            < second.len() && #[trigger] (i * second.len() + j) == #[trigger] (p * second.len()
            + q) implies i == p && j == q by {
        lemma_grid_position(i, j, m, n);
        lemma_grid_position(p, q, m, n);
    }
}

/// Every position `k` of the product comes from one element of each sequence: with `n` the
/// length of the second, from the element `k / n` of the first and the element `k % n` of the
/// second.
pub proof fn lemma_product_at<A, B>(first: Seq<A>, second: Seq<B>, k: int)
    requires
        0 <= k < product(first, second).len(),
    ensures
        0 <= k / (second.len() as int) < first.len(),
        0 <= k % (second.len() as int) < second.len(),
        k == (k / (second.len() as int)) * second.len() + k % (second.len() as int),
        product(first, second)[k] == (
            first[k / (second.len() as int)],
            second[k % (second.len() as int)],
        ),
{
    lemma_grid_cell(k, first.len() as int, second.len() as int);
}

/// The order of the product: the pairs of the element `i` of the first sequence stand
/// together, and they pair it with a whole traversal of the second sequence, in its order.
pub proof fn lemma_product_block<A, B>(first: Seq<A>, second: Seq<B>, i: int)
    requires
        0 <= i < first.len(),
    ensures
        0 <= i * second.len() <= i * second.len() + second.len() <= product(first, second).len(),
        product(first, second).subrange(i * second.len(), i * second.len() + second.len())
            == pairs(first[i], second),
{
    let m = first.len() as int;
    let n = second.len() as int;
    assert(0 <= i * n && (i + 1) * n <= m * n && (i + 1) * n == i * n + n) by (nonlinear_arith)
        requires
            0 <= i < m,
            0 <= n,
    ;
    let block = product(first, second).subrange(i * n, i * n + n);
    assert forall|j: int| 0 <= j < n implies block[j] == pairs(first[i], second)[j] by {
        lemma_grid_position(i, j, m, n);
    }
    assert(block =~= pairs(first[i], second));
}

/// Emptiness: the product with an empty sequence, on either side, is empty.
pub proof fn lemma_product_empty<A, B>(first: Seq<A>, second: Seq<B>)
    requires
        first.len() == 0 || second.len() == 0,
    ensures
        product(first, second) == Seq::<(A, B)>::empty(),
{
    assert(first.len() * second.len() == 0) by (nonlinear_arith)
        requires
            first.len() == 0 || second.len() == 0,
    ;
    assert(product(first, second) =~= Seq::<(A, B)>::empty());
}

/// The product starts with the pairs of the front element of the first sequence; the
/// product of the rest follows.
pub proof fn lemma_product_front<A, B>(first: Seq<A>, second: Seq<B>)
    requires
        first.len() > 0,
    ensures
        product(first, second) == pairs(first.first(), second) + product(
            first.drop_first(),
            second,
        ),
{
    let m = first.len() as int;
    let n = second.len() as int;
    let whole = product(first, second);
    let parts = pairs(first.first(), second) + product(first.drop_first(), second);
    assert(m * n == n + (m - 1) * n) by (nonlinear_arith);
    assert forall|k: int| 0 <= k < whole.len() implies whole[k] == parts[k] by {
        lemma_grid_cell(k, m, n);
        if k >= n {
            lemma_grid_cell(k - n, m - 1, n);
            let row = (k - n) / n;
            assert((row + 1) * n == row * n + n) by (nonlinear_arith);
            lemma_fundamental_div_mod_converse(k, n, row + 1, (k - n) % n);
        } else {
            lemma_fundamental_div_mod_converse(k, n, 0, k);
        }
    }
    assert(whole =~= parts);
}

/// Pairing an item with a reversed sequence gives the pairs in reverse.
pub proof fn lemma_pairs_reverse<A, B>(item: A, elements: Seq<B>)
    ensures
        pairs(item, elements.reverse()) == pairs(item, elements).reverse(),
{
    assert(pairs(item, elements.reverse()) =~= pairs(item, elements).reverse());
}

/// Reverse symmetry: the product of the two sequences reversed is the product reversed. It
/// visits the elements of the first sequence in reverse order and, for each of them, the
/// elements of the second sequence in reverse order.
pub proof fn lemma_product_reverse<A, B>(first: Seq<A>, second: Seq<B>)
    ensures
        product(first.reverse(), second.reverse()) == product(first, second).reverse(),
{
    let m = first.len() as int;
    let n = second.len() as int;
    let turned = product(first.reverse(), second.reverse());
    let whole = product(first, second);
    assert forall|k: int| 0 <= k < turned.len() implies turned[k] == whole.reverse()[k] by {
        lemma_grid_cell(k, m, n);
        let i = k / n;
        let j = k % n;
        lemma_grid_position(m - 1 - i, n - 1 - j, m, n);
        assert((m - 1 - i) * n + (n - 1 - j) == m * n - 1 - (i * n + j)) by (nonlinear_arith);
    }
    assert(turned =~= whole.reverse());
}

/// The product of the two sequences reversed holds the same pairs as the product, each as
/// often.
pub proof fn lemma_product_reverse_multiset<A, B>(first: Seq<A>, second: Seq<B>)
    ensures
        product(first.reverse(), second.reverse()).to_multiset() == product(
            first,
            second,
        ).to_multiset(),
{
    lemma_product_reverse(first, second);
    product(first, second).lemma_reverse_to_multiset();
}

} // verus!
