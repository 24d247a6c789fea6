//! Totals of vectors, rows and lanes, and division by them.
use vstd::prelude::*;
use crate::scalar::{
    is_count, is_quotient, is_scaled, is_share, is_total, is_zero_test, lemma_total_push,
    is_normalized, Scalar,
};
use crate::tensor::{Matrix, Tensor3};

verus! {

/// The total of a vector.
pub fn sum<T: Scalar>(xs: &Vec<T>) -> (total: T)
    ensures
        is_total(xs@, total),
{
    let mut acc = T::from_count(0);
    let mut i: usize = 0;
    while i < xs.len()
        invariant
            i <= xs.len(),
            is_total(xs@.take(i as int), acc),
        decreases xs.len() - i,
    {
        let next = acc.plus(xs[i]);
        proof {
            lemma_total_push(xs@.take(i as int), acc, xs@[i as int], next);
            assert(xs@.take(i + 1) =~= xs@.take(i as int).push(xs@[i as int]));
        }
        acc = next;
        i += 1;
    }
    assert(xs@.take(xs.len() as int) =~= xs@);
    acc
}

/// The share of one among `n`.
pub fn share_of<T: Scalar>(n: usize) -> (share: T)
    ensures
        is_share(n, share),
{
    let one = T::from_count(1);
    let count = T::from_count(n);
    let share = one.over(count);
    assert(is_quotient(one, count, share) && is_count(1, one) && is_count(n, count));
    share
}

/// A vector divided by `total`, entry by entry; where `total` is zero, the
/// vector of the same length that holds the share of one among its entries in
/// every place.
pub fn scaled<T: Scalar>(xs: &Vec<T>, total: T) -> (r: Vec<T>)
    ensures
        is_scaled(xs@, total, r@),
{
    let degenerate = total.is_zero();
    let share = share_of::<T>(xs.len());
    let mut r: Vec<T> = Vec::new();
    let mut i: usize = 0;
    while i < xs.len()
        invariant
            i <= xs.len(),
            r@.len() == i,
            forall|n: int|
                0 <= n < i ==> if degenerate {
                    #[trigger] r@[n] == share
                } else {
                    is_quotient(xs@[n], total, #[trigger] r@[n])
                },
        decreases xs.len() - i,
    {
        let v = if degenerate {
            share
        } else {
            xs[i].over(total)
        };
        r.push(v);
        i += 1;
    }
    assert(is_zero_test(total, degenerate) && is_share(xs@.len() as usize, share));
    r
}

/// `sums` holds the total of every row of `matrix`.
pub open spec fn is_row_sums<T: Scalar>(matrix: Matrix<T>, sums: Seq<T>) -> bool {
    &&& sums.len() == matrix.shape.0
    &&& forall|i: int| 0 <= i < matrix.shape.0 ==> is_total(matrix.row(i), #[trigger] sums[i])
}

/// `after` is `before` with every row normalized.
pub open spec fn is_row_normalized<T: Scalar>(before: Matrix<T>, after: Matrix<T>) -> bool {
    &&& after.wf()
    &&& after.shape == before.shape
    &&& forall|i: int|
        0 <= i < before.shape.0 ==> #[trigger] is_normalized(before.row(i), after.row(i))
}

/// `sums` holds, for every lane of `tensor` along the given axis, its total.
pub open spec fn is_axis_sum<T: Scalar>(tensor: Tensor3<T>, axis: int, sums: Matrix<T>) -> bool {
    &&& sums.wf()
    &&& sums.shape == tensor.cross_shape(axis)
    &&& forall|a: int, b: int|
        0 <= a < sums.shape.0 && 0 <= b < sums.shape.1 ==> is_total(
            tensor.lane(axis, a, b),
            #[trigger] sums.at(a, b),
        )
}

/// `after` is `before` with every lane along the given axis normalized.
pub open spec fn is_axis_normalized<T: Scalar>(
    before: Tensor3<T>,
    axis: int,
    after: Tensor3<T>,
) -> bool {
    &&& after.wf()
    &&& after.shape == before.shape
    &&& forall|a: int, b: int|
        0 <= a < before.cross_shape(axis).0 && 0 <= b < before.cross_shape(axis).1
            ==> #[trigger] is_normalized(before.lane(axis, a, b), after.lane(axis, a, b))
}

/// The total of row `i` of a matrix.
pub fn row_sum<T: Scalar>(matrix: &Matrix<T>, i: usize) -> (total: T)
    requires
        matrix.wf(),
        i < matrix.shape.0,
    ensures
        is_total(matrix.row(i as int), total),
{
    let ghost row = matrix.row(i as int);
    let mut acc = T::from_count(0);
    let mut j: usize = 0;
    while j < matrix.shape.1
        invariant
            matrix.wf(),
            i < matrix.shape.0,
            row == matrix.row(i as int),
            j <= matrix.shape.1,
            is_total(row.take(j as int), acc),
        decreases matrix.shape.1 - j,
    {
        let next = acc.plus(matrix.get(i, j));
        proof {
            lemma_total_push(row.take(j as int), acc, row[j as int], next);
            assert(row.take(j + 1) =~= row.take(j as int).push(row[j as int]));
        }
        acc = next;
        j += 1;
    }
    assert(row.take(matrix.shape.1 as int) =~= row);
    acc
}

/// The total of every row of a matrix.
pub fn sum_rows<T: Scalar>(matrix: &Matrix<T>) -> (sums: Vec<T>)
    requires
        matrix.wf(),
    ensures
        is_row_sums(*matrix, sums@),
{
    let mut sums: Vec<T> = Vec::new();
    let mut i: usize = 0;
    while i < matrix.shape.0
        invariant
            matrix.wf(),
            i <= matrix.shape.0,
            sums@.len() == i,
            forall|n: int| 0 <= n < i ==> is_total(matrix.row(n), #[trigger] sums@[n]),
        decreases matrix.shape.0 - i,
    {
        let total = row_sum(matrix, i);
        sums.push(total);
        i += 1;
    }
    sums
}

/// The matrix with every row divided by its total; a row whose total is
/// zero becomes uniform.
pub fn normalized_rows<T: Scalar>(matrix: &Matrix<T>) -> (r: Matrix<T>)
    requires
        matrix.wf(),
    ensures
        is_row_normalized(*matrix, r),
{
    let sums = sum_rows(matrix);
    let mut flags: Vec<bool> = Vec::new();
    let mut i: usize = 0;
    while i < sums.len()
        invariant
            i <= sums.len(),
            flags@.len() == i,
            forall|n: int| 0 <= n < i ==> is_zero_test(sums@[n], #[trigger] flags@[n]),
        decreases sums.len() - i,
    {
        flags.push(sums[i].is_zero());
        i += 1;
    }
    let share = share_of::<T>(matrix.shape.1);
    let cell = |i: usize, j: usize| -> (v: T)
        requires
            i < matrix.shape.0,
            j < matrix.shape.1,
        ensures
            if flags@[i as int] {
                v == share
            } else {
                is_quotient(matrix.at(i as int, j as int), sums@[i as int], v)
            },
        {
            if flags[i] {
                share
            } else {
                matrix.get(i, j).over(sums[i])
            }
        };
    let r = Matrix::from_shape_fn(matrix.shape, cell);
    assert forall|i: int| 0 <= i < matrix.shape.0 implies #[trigger] is_normalized(
        matrix.row(i),
        r.row(i),
    ) by {
        let before = matrix.row(i);
        let after = r.row(i);
        assert forall|j: int| 0 <= j < before.len() implies if flags@[i] {
            #[trigger] after[j] == share
        } else {
            is_quotient(before[j], sums@[i], #[trigger] after[j])
        } by {
            assert(call_ensures(cell, (i as usize, j as usize), r.at(i, j)));
        }
        assert(is_zero_test(sums@[i], flags@[i]) && is_share(before.len() as usize, share));
        assert(is_scaled(before, sums@[i], after));
        assert(is_total(before, sums@[i]));
    }
    r
}

/// The total of the lane of a tensor along the given axis at `(a, b)`.
pub fn lane_sum<T: Scalar>(tensor: &Tensor3<T>, axis: usize, a: usize, b: usize) -> (total: T)
    requires
        tensor.wf(),
        axis < 3,
        a < tensor.cross_shape(axis as int).0,
        b < tensor.cross_shape(axis as int).1,
    ensures
        is_total(tensor.lane(axis as int, a as int, b as int), total),
{
    let ghost lane = tensor.lane(axis as int, a as int, b as int);
    let extent = if axis == 0 {
        tensor.shape.0
    } else if axis == 1 {
        tensor.shape.1
    } else {
        tensor.shape.2
    };
    let mut acc = T::from_count(0);
    let mut x: usize = 0;
    while x < extent
        invariant
            tensor.wf(),
            axis < 3,
            a < tensor.cross_shape(axis as int).0,
            b < tensor.cross_shape(axis as int).1,
            extent == tensor.extent(axis as int),
            lane == tensor.lane(axis as int, a as int, b as int),
            x <= extent,
            is_total(lane.take(x as int), acc),
        decreases extent - x,
    {
        let next = acc.plus(tensor.get_along(axis, x, a, b));
        proof {
            lemma_total_push(lane.take(x as int), acc, lane[x as int], next);
            assert(lane.take(x + 1) =~= lane.take(x as int).push(lane[x as int]));
        }
        acc = next;
        x += 1;
    }
    assert(lane.take(extent as int) =~= lane);
    acc
}

/// The totals of a tensor along the given axis: a matrix over the other two.
pub fn sum_axis<T: Scalar>(tensor: &Tensor3<T>, axis: usize) -> (sums: Matrix<T>)
    requires
        tensor.wf(),
        axis < 3,
        tensor.cross_shape(axis as int).0 * tensor.cross_shape(axis as int).1 <= usize::MAX,
    ensures
        is_axis_sum(*tensor, axis as int, sums),
{
    let shape = if axis == 0 {
        (tensor.shape.1, tensor.shape.2)
    } else if axis == 1 {
        (tensor.shape.0, tensor.shape.2)
    } else {
        (tensor.shape.0, tensor.shape.1)
    };
    let cell = |a: usize, b: usize| -> (v: T)
        requires
            a < shape.0,
            b < shape.1,
        ensures
            is_total(tensor.lane(axis as int, a as int, b as int), v),
        { lane_sum(tensor, axis, a, b) };
    let sums = Matrix::from_shape_fn(shape, cell);
    assert forall|a: int, b: int| 0 <= a < sums.shape.0 && 0 <= b < sums.shape.1 implies is_total(
        tensor.lane(axis as int, a, b),
        #[trigger] sums.at(a, b),
    ) by {
        assert(call_ensures(cell, (a as usize, b as usize), sums.at(a, b)));
    }
    sums
}

/// The tensor with every lane along the given axis divided by its total; a
/// lane whose total is zero becomes uniform.
pub fn normalized_axis<T: Scalar>(tensor: &Tensor3<T>, axis: usize) -> (r: Tensor3<T>)
    requires
        tensor.wf(),
        axis < 3,
        tensor.cross_shape(axis as int).0 * tensor.cross_shape(axis as int).1 <= usize::MAX,
    ensures
        is_axis_normalized(*tensor, axis as int, r),
{
    let sums = sum_axis(tensor, axis);
    let test = |a: usize, b: usize| -> (z: bool)
        requires
            a < sums.shape.0,
            b < sums.shape.1,
        ensures
            is_zero_test(sums.at(a as int, b as int), z),
        { sums.get(a, b).is_zero() };
    let flags = Matrix::from_shape_fn(sums.shape, test);
    let extent = if axis == 0 {
        tensor.shape.0
    } else if axis == 1 {
        tensor.shape.1
    } else {
        tensor.shape.2
    };
    let share = share_of::<T>(extent);
    let cell = |i: usize, j: usize, k: usize| -> (v: T)
        requires
            i < tensor.shape.0,
            j < tensor.shape.1,
            k < tensor.shape.2,
        ensures
            axis == 0 ==> if flags.at(j as int, k as int) {
                v == share
            } else {
                is_quotient(tensor.at(i as int, j as int, k as int), sums.at(j as int, k as int), v)
            },
            axis == 1 ==> if flags.at(i as int, k as int) {
                v == share
            } else {
                is_quotient(tensor.at(i as int, j as int, k as int), sums.at(i as int, k as int), v)
            },
            axis == 2 ==> if flags.at(i as int, j as int) {
                v == share
            } else {
                is_quotient(tensor.at(i as int, j as int, k as int), sums.at(i as int, j as int), v)
            },
        {
            let (a, b) = if axis == 0 {
                (j, k)
            } else if axis == 1 {
                (i, k)
            } else {
                (i, j)
            };
            if flags.get(a, b) {
                share
            } else {
                tensor.get(i, j, k).over(sums.get(a, b))
            }
        };
    let r = Tensor3::from_shape_fn(tensor.shape, cell);
    assert forall|a: int, b: int|
        0 <= a < tensor.cross_shape(axis as int).0 && 0 <= b < tensor.cross_shape(
            axis as int,
        ).1 implies #[trigger] is_normalized(
        tensor.lane(axis as int, a, b),
        r.lane(axis as int, a, b),
    ) by {
        let before = tensor.lane(axis as int, a, b);
        let after = r.lane(axis as int, a, b);
        let total = sums.at(a, b);
        let degenerate = flags.at(a, b);
        assert(call_ensures(test, (a as usize, b as usize), flags.at(a, b)));
        assert forall|x: int| 0 <= x < before.len() implies if degenerate {
            #[trigger] after[x] == share
        } else {
            is_quotient(before[x], total, #[trigger] after[x])
        } by {
            if axis == 0 {
                assert(call_ensures(cell, (x as usize, a as usize, b as usize), r.at(x, a, b)));
            } else if axis == 1 {
                assert(call_ensures(cell, (a as usize, x as usize, b as usize), r.at(a, x, b)));
            } else {
                assert(call_ensures(cell, (a as usize, b as usize, x as usize), r.at(a, b, x)));
            }
        }
        assert(is_zero_test(total, degenerate) && is_share(before.len() as usize, share));
        assert(is_scaled(before, total, after));
        assert(is_total(before, total));
    }
    r
}

} // verus!
