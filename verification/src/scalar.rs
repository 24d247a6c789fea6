//! The numbers the model computes with.
//!
//! The engine is generic over its number type. An implementation of
//! [`Scalar`] supplies the arithmetic; nothing is assumed of it. Contracts
//! elsewhere in the crate therefore speak of results relationally: they say
//! from which operations, applied to which operands, every output was
//! obtained.
use vstd::prelude::*;

verus! {

/// A number type with the operations the engine needs.
///
/// The engine calls every operation on whatever operands come up, a zero
/// divisor among them: an implementation answers for all of them.
pub trait Scalar: Copy {
    /// The number that stands for the count `n`.
    fn from_count(n: usize) -> Self;

    /// `self + rhs`.
    fn plus(self, rhs: Self) -> Self;

    /// `self - rhs`.
    fn minus(self, rhs: Self) -> Self;

    /// `self * rhs`.
    fn times(self, rhs: Self) -> Self;

    /// `self / rhs`.
    fn over(self, rhs: Self) -> Self;

    /// The natural logarithm of `self`.
    fn ln(self) -> Self;

    /// The absolute value of `self`.
    fn abs(self) -> Self;

    /// Whether `self` is zero.
    fn is_zero(self) -> bool;

    /// Whether `self < rhs`.
    fn less_than(self, rhs: Self) -> bool;
}

/// `r` is what `from_count` may return for `n`.
pub open spec fn is_count<T: Scalar>(n: usize, r: T) -> bool {
    call_ensures(T::from_count, (n,), r)
}

/// `r` is what `plus` may return for `a` and `b`.
pub open spec fn is_sum<T: Scalar>(a: T, b: T, r: T) -> bool {
    call_ensures(T::plus, (a, b), r)
}

/// `r` is what `minus` may return for `a` and `b`.
pub open spec fn is_difference<T: Scalar>(a: T, b: T, r: T) -> bool {
    call_ensures(T::minus, (a, b), r)
}

/// `r` is what `times` may return for `a` and `b`.
pub open spec fn is_product<T: Scalar>(a: T, b: T, r: T) -> bool {
    call_ensures(T::times, (a, b), r)
}

/// `r` is what `over` may return for `a` and `b`.
pub open spec fn is_quotient<T: Scalar>(a: T, b: T, r: T) -> bool {
    call_ensures(T::over, (a, b), r)
}

/// `r` is what `ln` may return for `a`.
pub open spec fn is_log<T: Scalar>(a: T, r: T) -> bool {
    call_ensures(T::ln, (a,), r)
}

/// `r` is what `abs` may return for `a`.
pub open spec fn is_magnitude<T: Scalar>(a: T, r: T) -> bool {
    call_ensures(T::abs, (a,), r)
}

/// `r` is what `is_zero` may answer for `a`.
pub open spec fn is_zero_test<T: Scalar>(a: T, r: bool) -> bool {
    call_ensures(T::is_zero, (a,), r)
}

/// `r` is what `less_than` may answer for `a` and `b`.
pub open spec fn is_less_test<T: Scalar>(a: T, b: T, r: bool) -> bool {
    call_ensures(T::less_than, (a, b), r)
}

/// `r` is the total of `xs`: the count zero, to which the entries were added
/// one by one, first to last.
pub open spec fn is_total<T: Scalar>(xs: Seq<T>, r: T) -> bool
    decreases xs.len(),
{
    if xs.len() == 0 {
        is_count(0, r)
    } else {
        exists|p: T| is_total(xs.drop_last(), p) && #[trigger] is_sum(p, xs.last(), r)
    }
}

/// `r` is the share of one among `n`: the count one over the count `n`.
pub open spec fn is_share<T: Scalar>(n: usize, r: T) -> bool {
    exists|one: T, count: T|
        (#[trigger] is_quotient(one, count, r)) && is_count(1, one) && is_count(n, count)
}

/// `after` is `before` scaled by the divisor `total`: every entry over `total`,
/// or, where `total` tested as zero, the share of one among the entries in
/// every place.
pub open spec fn is_scaled<T: Scalar>(before: Seq<T>, total: T, after: Seq<T>) -> bool {
    &&& before.len() <= usize::MAX
    &&& after.len() == before.len()
    &&& exists|degenerate: bool, share: T|
        {
            &&& #[trigger] is_zero_test(total, degenerate)
            &&& #[trigger] is_share(before.len() as usize, share)
            &&& forall|i: int|
                0 <= i < before.len() ==> if degenerate {
                    #[trigger] after[i] == share
                } else {
                    is_quotient(before[i], total, #[trigger] after[i])
                }
        }
}

/// `after` is `before` normalized: scaled by its own total.
pub open spec fn is_normalized<T: Scalar>(before: Seq<T>, after: Seq<T>) -> bool {
    exists|total: T| is_total(before, total) && #[trigger] is_scaled(before, total, after)
}

/// Extending a sequence by one entry extends its total by one addition.
pub proof fn lemma_total_push<T: Scalar>(xs: Seq<T>, p: T, x: T, r: T)
    requires
        is_total(xs, p),
        is_sum(p, x, r),
    ensures
        is_total(xs.push(x), r),
{
    let ys = xs.push(x);
    assert(ys.drop_last() =~= xs);
    assert(is_total(ys.drop_last(), p) && is_sum(p, ys.last(), r));
}

} // verus!
