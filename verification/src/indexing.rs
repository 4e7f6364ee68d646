//! Row-major linearisation of N-dimensional indices.
//!
//! An N-dimensional index is linearised against a shape in row-major order:
//! the last axis varies fastest. [`ravel_indices`] and [`unravel_index`]
//! convert between the two forms; the spec functions [`linearise`] and
//! [`delinearise`] are their mathematical counterparts.

use vstd::prelude::*;

verus! {

/// The number of elements of a shape: the product of its dimension lengths.
pub open spec fn shape_product(shape: Seq<u64>) -> nat
    decreases shape.len(),
{
    if shape.len() == 0 {
        1
    } else {
        shape_product(shape.drop_last()) * (shape.last() as nat)
    }
}

/// `indices` lies within `shape` along every axis.
pub open spec fn indices_in_bounds(indices: Seq<u64>, shape: Seq<u64>) -> bool {
    indices.len() == shape.len() && forall|i: int|
        0 <= i < shape.len() ==> #[trigger] indices[i] < shape[i]
}

/// Every axis of `shape` is non-empty.
pub open spec fn shape_positive(shape: Seq<u64>) -> bool {
    forall|i: int| 0 <= i < shape.len() ==> #[trigger] shape[i] > 0
}

/// The row-major linear index of `indices` in `shape`.
pub open spec fn linearise(indices: Seq<u64>, shape: Seq<u64>) -> nat
    recommends
        indices.len() == shape.len(),
    decreases shape.len(),
{
    if shape.len() == 0 {
        0
    } else {
        linearise(indices.drop_last(), shape.drop_last()) * (shape.last() as nat) + (
        indices.last() as nat)
    }
}

/// The N-dimensional index whose row-major linear index in `shape` is `k`.
pub open spec fn delinearise(k: nat, shape: Seq<u64>) -> Seq<u64>
    recommends
        shape_positive(shape),
    decreases shape.len(),
{
    if shape.len() == 0 {
        Seq::empty()
    } else {
        delinearise(k / (shape.last() as nat), shape.drop_last()).push(
            (k % (shape.last() as nat)) as u64,
        )
    }
}

/// A shape with an in-bounds index has only positive axes.
pub proof fn lemma_in_bounds_positive(indices: Seq<u64>, shape: Seq<u64>)
    requires
        indices_in_bounds(indices, shape),
    ensures
        shape_positive(shape),
{
    assert forall|i: int| 0 <= i < shape.len() implies #[trigger] shape[i] > 0 by {
        assert(indices[i] < shape[i]);
    }
}

/// The product of a shape with a positive axis set is positive.
pub proof fn lemma_shape_product_positive(shape: Seq<u64>)
    requires
        shape_positive(shape),
    ensures
        shape_product(shape) > 0,
    decreases shape.len(),
{
    if shape.len() > 0 {
        assert(shape_positive(shape.drop_last()));
        lemma_shape_product_positive(shape.drop_last());
        assert(shape_product(shape.drop_last()) * (shape.last() as nat) > 0)
            by (nonlinear_arith)
            requires
                shape_product(shape.drop_last()) > 0,
                shape.last() > 0,
        ;
    }
}

/// Peeling the first axis off a shape divides its product.
pub proof fn lemma_shape_product_front(s0: u64, sh: Seq<u64>)
    ensures
        shape_product(seq![s0] + sh) == (s0 as nat) * shape_product(sh),
    decreases sh.len(),
{
    if sh.len() == 0 {
        let ss = seq![s0];
        assert(ss + sh =~= ss);
        assert(ss.drop_last() =~= Seq::<u64>::empty());
        assert(ss.last() == s0);
        assert(shape_product(Seq::<u64>::empty()) == 1);
        assert(shape_product(ss) == shape_product(Seq::<u64>::empty()) * (s0 as nat));
        assert(1 * (s0 as nat) == s0 as nat) by (nonlinear_arith);
        assert(shape_product(sh) == 1);
        assert((s0 as nat) * 1 == s0 as nat) by (nonlinear_arith);
        assert(shape_product(ss + sh) == (s0 as nat) * shape_product(sh));
    } else {
        let whole = seq![s0] + sh;
        assert(whole.drop_last() =~= seq![s0] + sh.drop_last());
        assert(whole.last() == sh.last());
        lemma_shape_product_front(s0, sh.drop_last());
        let p = shape_product(sh.drop_last());
        let s = sh.last() as nat;
        assert(shape_product(whole) == shape_product(whole.drop_last()) * s);
        assert(shape_product(whole.drop_last()) == (s0 as nat) * p);
        assert(shape_product(sh) == p * s);
        assert(((s0 as nat) * p) * s == (s0 as nat) * (p * s)) by (nonlinear_arith);
        assert(shape_product(whole) == (s0 as nat) * shape_product(sh));
    }
}

/// Peeling the first axis off a linearisation.
pub proof fn lemma_linearise_front(i0: u64, idx: Seq<u64>, s0: u64, sh: Seq<u64>)
    requires
        idx.len() == sh.len(),
    ensures
        linearise(seq![i0] + idx, seq![s0] + sh) == (i0 as nat) * shape_product(sh) + linearise(
            idx,
            sh,
        ),
    decreases sh.len(),
{
    if sh.len() == 0 {
        let si = seq![i0];
        let ss = seq![s0];
        assert(si + idx =~= si);
        assert(ss + sh =~= ss);
        assert(si.drop_last() =~= Seq::<u64>::empty());
        assert(ss.drop_last() =~= Seq::<u64>::empty());
        assert(si.last() == i0);
        assert(ss.last() == s0);
        assert(linearise(si, ss) == linearise(Seq::<u64>::empty(), Seq::<u64>::empty()) * (
        s0 as nat) + (i0 as nat));
        assert(0 * (s0 as nat) == 0) by (nonlinear_arith);
        assert((i0 as nat) * 1 == i0 as nat) by (nonlinear_arith);
    } else {
        let whole = seq![i0] + idx;
        let wsh = seq![s0] + sh;
        assert(whole.drop_last() =~= seq![i0] + idx.drop_last());
        assert(wsh.drop_last() =~= seq![s0] + sh.drop_last());
        assert(whole.last() == idx.last());
        assert(wsh.last() == sh.last());
        lemma_linearise_front(i0, idx.drop_last(), s0, sh.drop_last());
        let p = shape_product(sh.drop_last());
        let a = linearise(idx.drop_last(), sh.drop_last());
        let s = sh.last() as nat;
        let b = idx.last() as nat;
        assert(((i0 as nat) * p + a) * s + b == (i0 as nat) * (p * s) + (a * s + b))
            by (nonlinear_arith);
    }
}

/// The linear index of an in-bounds N-dimensional index lies below the shape product.
pub proof fn lemma_linearise_bound(indices: Seq<u64>, shape: Seq<u64>)
    requires
        indices_in_bounds(indices, shape),
    ensures
        linearise(indices, shape) < shape_product(shape),
    decreases shape.len(),
{
    if shape.len() == 0 {
    } else {
        assert(indices_in_bounds(indices.drop_last(), shape.drop_last()));
        lemma_linearise_bound(indices.drop_last(), shape.drop_last());
        let a = linearise(indices.drop_last(), shape.drop_last());
        let p = shape_product(shape.drop_last());
        let s = shape.last() as nat;
        let b = indices.last() as nat;
        assert(a * s + b < p * s) by (nonlinear_arith)
            requires
                a < p,
                b < s,
        ;
    }
}

/// Delinearising a linear index below the shape product yields an in-bounds index.
pub proof fn lemma_delinearise_in_bounds(k: nat, shape: Seq<u64>)
    requires
        shape_positive(shape),
        k < shape_product(shape),
    ensures
        indices_in_bounds(delinearise(k, shape), shape),
    decreases shape.len(),
{
    if shape.len() == 0 {
    } else {
        let s = shape.last() as nat;
        let p = shape_product(shape.drop_last());
        assert(k / s < p) by (nonlinear_arith)
            requires
                s > 0,
                k < p * s,
        ;
        assert(shape_positive(shape.drop_last()));
        lemma_delinearise_in_bounds(k / s, shape.drop_last());
        let rest = delinearise(k / s, shape.drop_last());
        let whole = delinearise(k, shape);
        assert(k % s < s) by (nonlinear_arith)
            requires
                s > 0,
        ;
        assert(whole == rest.push((k % s) as u64));
        assert(forall|i: int| 0 <= i < shape.len() ==> #[trigger] whole[i] < shape[i]) by {
            assert(forall|i: int|
                0 <= i < shape.len() - 1 ==> #[trigger] whole[i] == rest[i] && whole[i]
                    < shape[i]);
            assert(whole[shape.len() - 1] == (k % s) as u64);
        }
    }
}

/// Linearising the delinearisation of `k` gives back `k`.
pub proof fn lemma_linearise_delinearise(k: nat, shape: Seq<u64>)
    requires
        shape_positive(shape),
        k < shape_product(shape),
    ensures
        linearise(delinearise(k, shape), shape) == k,
    decreases shape.len(),
{
    if shape.len() == 0 {
    } else {
        let s = shape.last() as nat;
        let p = shape_product(shape.drop_last());
        assert(k / s < p) by (nonlinear_arith)
            requires
                s > 0,
                k < p * s,
        ;
        assert(shape_positive(shape.drop_last()));
        lemma_linearise_delinearise(k / s, shape.drop_last());
        let rest = delinearise(k / s, shape.drop_last());
        let whole = delinearise(k, shape);
        assert(whole.drop_last() =~= rest);
        assert((k / s) * s + (k % s) == k) by (nonlinear_arith)
            requires
                s > 0,
        ;
    }
}

/// Delinearising the linearisation of an in-bounds index gives back the index.
pub proof fn lemma_delinearise_linearise(indices: Seq<u64>, shape: Seq<u64>)
    requires
        indices_in_bounds(indices, shape),
    ensures
        delinearise(linearise(indices, shape), shape) == indices,
    decreases shape.len(),
{
    if shape.len() == 0 {
        assert(delinearise(linearise(indices, shape), shape) =~= indices);
    } else {
        assert(indices_in_bounds(indices.drop_last(), shape.drop_last()));
        lemma_delinearise_linearise(indices.drop_last(), shape.drop_last());
        let a = linearise(indices.drop_last(), shape.drop_last());
        let s = shape.last() as nat;
        let b = indices.last() as nat;
        let k = a * s + b;
        assert(k / s == a && k % s == b) by (nonlinear_arith)
            requires
                s > 0,
                b < s,
                k == a * s + b,
        ;
        assert(delinearise(k, shape) =~= indices);
    }
}

/// Within one row (a fixed prefix, varying last coordinate), linear indices
/// are consecutive.
pub proof fn lemma_linearise_row(prefix: Seq<u64>, q1: u64, q2: u64, shape: Seq<u64>)
    requires
        prefix.len() + 1 == shape.len(),
    ensures
        linearise(prefix.push(q2), shape) == linearise(prefix.push(q1), shape) + q2 - q1,
{
    assert(prefix.push(q1).drop_last() =~= prefix);
    assert(prefix.push(q2).drop_last() =~= prefix);
}

/// The product of a shape is the product of a prefix and the rest.
pub proof fn lemma_shape_product_split(shape: Seq<u64>, m: int)
    requires
        0 <= m <= shape.len(),
    ensures
        shape_product(shape) == shape_product(shape.take(m)) * shape_product(shape.skip(m)),
    decreases shape.len() - m,
{
    if m == shape.len() {
        assert(shape.take(m) =~= shape);
        assert(shape.skip(m) =~= Seq::<u64>::empty());
        assert(shape_product(shape) == shape_product(shape.take(m)) * 1);
    } else {
        lemma_shape_product_split(shape.drop_last(), m);
        assert(shape.drop_last().take(m) =~= shape.take(m));
        assert(shape.skip(m).drop_last() =~= shape.drop_last().skip(m));
        assert(shape.skip(m).last() == shape.last());
        let a = shape_product(shape.take(m));
        let b = shape_product(shape.drop_last().skip(m));
        let s = shape.last() as nat;
        assert(shape_product(shape.skip(m)) == b * s);
        assert((a * b) * s == a * (b * s)) by (nonlinear_arith);
    }
}

/// Ravel N-dimensional `indices` to a row-major linear index in `shape`.
pub fn ravel_indices(indices: &[u64], shape: &[u64]) -> (r: u64)
    requires
        indices_in_bounds(indices@, shape@),
        shape_product(shape@) <= u64::MAX,
    ensures
        r == linearise(indices@, shape@),
{
    let len: usize = shape.len();
    let mut index: u64 = 0;
    let mut count: u64 = 1;
    let mut m: usize = 0;
    proof {
        assert(shape@.skip(len as int) =~= Seq::<u64>::empty());
        assert(indices@.skip(len as int) =~= Seq::<u64>::empty());
        lemma_in_bounds_positive(indices@, shape@);
    }
    while m < len
        invariant
            0 <= m <= len,
            len == shape@.len() == indices@.len(),
            indices_in_bounds(indices@, shape@),
            shape_positive(shape@),
            shape_product(shape@) <= u64::MAX,
            count == shape_product(shape@.skip(len - m)),
            index == linearise(indices@.skip(len - m), shape@.skip(len - m)),
            index < count,
        decreases len - m,
    {
        let ax: usize = len - 1 - m;
        let ghost prev_sh = shape@.skip(len - m);
        let ghost prev_idx = indices@.skip(len - m);
        let ghost new_sh = shape@.skip(ax as int);
        let ghost new_idx = indices@.skip(ax as int);
        proof {
            assert(new_sh =~= seq![shape@[ax as int]] + prev_sh);
            assert(new_idx =~= seq![indices@[ax as int]] + prev_idx);
            lemma_shape_product_front(shape@[ax as int], prev_sh);
            lemma_linearise_front(indices@[ax as int], prev_idx, shape@[ax as int], prev_sh);
            // the new suffix's product still fits in u64
            lemma_shape_product_split(shape@, ax as int);
            assert(shape_positive(shape@.take(ax as int)));
            lemma_shape_product_positive(shape@.take(ax as int));
            assert(shape_product(new_sh) <= shape_product(shape@)) by (nonlinear_arith)
                requires
                    shape_product(shape@) == shape_product(shape@.take(ax as int)) * shape_product(
                        new_sh,
                    ),
                    shape_product(shape@.take(ax as int)) >= 1,
            ;
            // the updated linear index stays below the updated count
            assert((indices@[ax as int] as nat) * (count as nat) + (index as nat) < (
            shape@[ax as int] as nat) * (count as nat)) by (nonlinear_arith)
                requires
                    (indices@[ax as int] as nat) < (shape@[ax as int] as nat),
                    (index as nat) < (count as nat),
            ;
            assert(shape_product(new_sh) == (shape@[ax as int] as nat) * (count as nat));
            assert((count as nat) * (shape@[ax as int] as nat) == (shape@[ax as int] as nat) * (
            count as nat)) by (nonlinear_arith);
            assert((count as nat) * (shape@[ax as int] as nat) <= u64::MAX);
            assert(linearise(new_idx, new_sh) == (indices@[ax as int] as nat) * (count as nat) + (
            index as nat));
        }
        index = indices[ax] * count + index;
        count = count * shape[ax];
        m = m + 1;
        proof {
            assert(shape@.skip(len - m) =~= new_sh);
            assert(indices@.skip(len - m) =~= new_idx);
        }
    }
    proof {
        assert(indices@.skip(0) =~= indices@);
        assert(shape@.skip(0) =~= shape@);
    }
    index
}

/// Unravel a row-major linear `index` to N-dimensional indices in `shape`.
pub fn unravel_index(index: u64, shape: &[u64]) -> (r: Vec<u64>)
    requires
        shape_positive(shape@),
    ensures
        r@ == delinearise(index as nat, shape@),
{
    let len: usize = shape.len();
    let mut rev: Vec<u64> = Vec::new();
    let mut rem: u64 = index;
    let mut m: usize = 0;
    proof {
        assert(shape@.take(len as int) =~= shape@);
        assert(rev@.reverse() =~= Seq::<u64>::empty());
        assert(delinearise(index as nat, shape@) + Seq::<u64>::empty() =~= delinearise(
            index as nat,
            shape@,
        ));
    }
    while m < len
        invariant
            0 <= m <= len,
            len == shape@.len(),
            shape_positive(shape@),
            rev@.len() == m,
            delinearise(index as nat, shape@) == delinearise(rem as nat, shape@.take(len - m))
                + rev@.reverse(),
        decreases len - m,
    {
        let ax: usize = len - 1 - m;
        let ghost prev_take = shape@.take(len - m);
        let ghost new_take = shape@.take(ax as int);
        let ghost old_rev = rev@;
        let ghost k = rem as nat;
        let s: u64 = shape[ax];
        proof {
            assert(prev_take.last() == shape@[ax as int]);
            assert(prev_take.drop_last() =~= new_take);
        }
        let digit: u64 = rem % s;
        rem = rem / s;
        rev.push(digit);
        m = m + 1;
        proof {
            assert(k / (s as nat) == rem as nat);
            assert(k % (s as nat) == digit as nat);
            assert(delinearise(k, prev_take) == delinearise(rem as nat, new_take).push(digit));
            assert(delinearise(rem as nat, new_take).push(digit) =~= delinearise(
                rem as nat,
                new_take,
            ) + seq![digit]);
            assert(rev@ == old_rev.push(digit));
            assert(rev@.reverse() =~= seq![digit] + old_rev.reverse());
            assert((delinearise(rem as nat, new_take) + seq![digit]) + old_rev.reverse()
                =~= delinearise(rem as nat, new_take) + (seq![digit] + old_rev.reverse()));
            assert(shape@.take(len - m) =~= new_take);
        }
    }
    let mut out: Vec<u64> = Vec::new();
    let mut i: usize = 0;
    proof {
        assert(shape@.take(0) =~= Seq::<u64>::empty());
        assert(delinearise(rem as nat, Seq::<u64>::empty()) + rev@.reverse() =~= rev@.reverse());
    }
    while i < len
        invariant
            0 <= i <= len,
            len == rev@.len(),
            out@.len() == i,
            forall|j: int| 0 <= j < i ==> #[trigger] out@[j] == rev@[len - 1 - j],
        decreases len - i,
    {
        out.push(rev[len - 1 - i]);
        i = i + 1;
    }
    proof {
        assert(out@ =~= rev@.reverse());
    }
    out
}

/// A shape no larger along any axis has no larger a product.
pub proof fn lemma_shape_product_monotone(a: Seq<u64>, b: Seq<u64>)
    requires
        a.len() == b.len(),
        forall|i: int| 0 <= i < a.len() ==> #[trigger] a[i] <= b[i],
    ensures
        shape_product(a) <= shape_product(b),
    decreases a.len(),
{
    if a.len() == 0 {
    } else {
        assert(forall|i: int|
            0 <= i < a.drop_last().len() ==> #[trigger] a.drop_last()[i] <= b.drop_last()[i]);
        lemma_shape_product_monotone(a.drop_last(), b.drop_last());
        assert(a.last() <= b.last());
        assert(shape_product(a.drop_last()) * (a.last() as nat) <= shape_product(b.drop_last())
            * (b.last() as nat)) by (nonlinear_arith)
            requires
                shape_product(a.drop_last()) <= shape_product(b.drop_last()),
                a.last() <= b.last(),
                shape_product(a.drop_last()) >= 0,
                a.last() >= 0,
        ;
    }
}

/// The number of elements of a shape with positive axes whose product is
/// known to fit in `u64`.
pub fn num_elements_of(shape: &[u64]) -> (r: u64)
    requires
        shape_positive(shape@),
        shape_product(shape@) <= u64::MAX,
    ensures
        r == shape_product(shape@),
{
    let mut product: u64 = 1;
    let mut i: usize = 0;
    proof {
        assert(shape@.take(0) =~= Seq::<u64>::empty());
    }
    while i < shape.len()
        invariant
            0 <= i <= shape@.len(),
            shape_positive(shape@),
            shape_product(shape@) <= u64::MAX,
            product == shape_product(shape@.take(i as int)),
        decreases shape@.len() - i,
    {
        proof {
            assert(shape@.take(i + 1).drop_last() =~= shape@.take(i as int));
            assert(shape@.take(i + 1).last() == shape@[i as int]);
            lemma_shape_product_split(shape@, i + 1);
            assert(shape_positive(shape@.skip(i + 1))) by {
                assert(forall|j: int|
                    0 <= j < shape@.skip(i + 1).len() ==> #[trigger] shape@.skip(i + 1)[j]
                        == shape@[i + 1 + j]);
            }
            lemma_shape_product_positive(shape@.skip(i + 1));
            assert(shape_product(shape@.take(i + 1)) <= shape_product(shape@))
                by (nonlinear_arith)
                requires
                    shape_product(shape@) == shape_product(shape@.take(i + 1)) * shape_product(
                        shape@.skip(i + 1),
                    ),
                    shape_product(shape@.skip(i + 1)) >= 1,
            ;
        }
        product = product * shape[i];
        i = i + 1;
    }
    proof {
        assert(shape@.take(shape@.len() as int) =~= shape@);
    }
    product
}

/// The number of elements of `shape`, or `None` if the product overflows `u64`.
pub fn checked_num_elements(shape: &[u64]) -> (r: Option<u64>)
    ensures
        r matches Some(n) ==> n == shape_product(shape@),
        r is None ==> exists|i: int|
            0 <= i < shape@.len() && shape_product(#[trigger] shape@.take(i)) * (shape@[i] as nat)
                > u64::MAX,
{
    let mut product: u64 = 1;
    let mut i: usize = 0;
    proof {
        assert(shape@.take(0) =~= Seq::<u64>::empty());
    }
    while i < shape.len()
        invariant
            0 <= i <= shape@.len(),
            product == shape_product(shape@.take(i as int)),
        decreases shape@.len() - i,
    {
        proof {
            assert(shape@.take(i + 1).drop_last() =~= shape@.take(i as int));
            assert(shape@.take(i + 1).last() == shape@[i as int]);
        }
        match product.checked_mul(shape[i]) {
            Some(p) => {
                product = p;
            },
            None => {
                return None;
            },
        }
        i = i + 1;
    }
    proof {
        assert(shape@.take(shape@.len() as int) =~= shape@);
    }
    Some(product)
}

} // verus!
