//! What normalization achieves where the arithmetic is exact.
//!
//! Nothing is assumed of a number type, so nothing here holds of every one:
//! each statement asks of the arithmetic what it uses. Rounding arithmetic
//! meets these demands only approximately, and the conclusions with them.
use vstd::prelude::*;
use crate::normalize::{is_axis_normalized, is_row_normalized};
use crate::plsa::{
    e_stepped, is_convergence_test, is_joint, is_log_likelihood, is_round, is_training,
    m_step_trace, m_stepped, Matrices, Termination,
};
use crate::scalar::{
    is_count, is_normalized, is_quotient, is_scaled, is_share, is_sum, is_total, is_zero_test,
    Scalar,
};
use crate::tensor::{Matrix, Tensor3};

verus! {

/// The number that stands for the count `n`.
pub open spec fn count_of<T: Scalar>(n: usize) -> T {
    choose|r: T| is_count(n, r)
}

/// The sum of `a` and `b`.
pub open spec fn sum_of<T: Scalar>(a: T, b: T) -> T {
    choose|r: T| is_sum(a, b, r)
}

/// The quotient of `a` and `b`.
pub open spec fn quotient_of<T: Scalar>(a: T, b: T) -> T {
    choose|r: T| is_quotient(a, b, r)
}

/// Whether `a` tests as zero.
pub open spec fn tests_zero<T: Scalar>(a: T) -> bool {
    choose|z: bool| is_zero_test(a, z)
}

/// The total of `xs`.
pub open spec fn total_of<T: Scalar>(xs: Seq<T>) -> T
    decreases xs.len(),
{
    if xs.len() == 0 {
        count_of(0)
    } else {
        sum_of(total_of(xs.drop_last()), xs.last())
    }
}

/// Counting, adding, dividing and testing for zero always answer, and answer
/// the same for the same operands.
pub open spec fn functional<T: Scalar>() -> bool {
    &&& forall|n: usize, r: T| #[trigger] is_count(n, r) <==> r == count_of::<T>(n)
    &&& forall|a: T, b: T, r: T| #[trigger] is_sum(a, b, r) <==> r == sum_of(a, b)
    &&& forall|a: T, b: T, r: T| #[trigger] is_quotient(a, b, r) <==> r == quotient_of(a, b)
    &&& forall|a: T, z: bool| #[trigger] is_zero_test(a, z) <==> z == tests_zero(a)
}

/// The arithmetic is functional, and division is that of a field: zero over
/// a divisor is zero, a sum over a divisor is the sum of the quotients, a
/// divisor over itself is one, anything over one is itself. Counting goes up
/// by adding one, and no count but zero is zero.
pub open spec fn exact<T: Scalar>() -> bool {
    &&& functional::<T>()
    &&& forall|s: T|
        !tests_zero(s) ==> #[trigger] quotient_of(count_of::<T>(0), s) == count_of::<T>(0)
    &&& forall|a: T, b: T, s: T|
        !tests_zero(s) ==> #[trigger] quotient_of(sum_of(a, b), s) == sum_of(
            quotient_of(a, s),
            quotient_of(b, s),
        )
    &&& forall|s: T| !tests_zero(s) ==> #[trigger] quotient_of(s, s) == count_of::<T>(1)
    &&& forall|a: T| #[trigger] quotient_of(a, count_of::<T>(1)) == a
    &&& forall|n: usize|
        n < usize::MAX ==> #[trigger] sum_of(count_of::<T>(n), count_of::<T>(1)) == count_of::<T>(
            (n + 1) as usize,
        )
    &&& forall|n: usize| n >= 1 ==> !tests_zero(#[trigger] count_of::<T>(n))
}

/// Where the arithmetic is functional, a sequence has one total.
pub proof fn lemma_one_total<T: Scalar>(xs: Seq<T>, r: T)
    requires
        functional::<T>(),
    ensures
        is_total(xs, r) <==> r == total_of(xs),
    decreases xs.len(),
{
    if xs.len() > 0 {
        let front = xs.drop_last();
        lemma_one_total(front, total_of(front));
        if is_total(xs, r) {
            let p = choose|p: T| is_total(xs.drop_last(), p) && #[trigger] is_sum(p, xs.last(), r);
            lemma_one_total(front, p);
        }
        if r == total_of(xs) {
            assert(is_total(front, total_of(front)) && is_sum(total_of(front), xs.last(), r));
        }
    }
}

/// Where the arithmetic is functional, normalizing equal values gives equal
/// values: the uniform distribution.
pub proof fn lemma_normalized_equal_values<T: Scalar>(before: Seq<T>, after: Seq<T>)
    requires
        functional::<T>(),
        forall|i: int, j: int|
            0 <= i < before.len() && 0 <= j < before.len() ==> before[i] == before[j],
        is_normalized(before, after),
    ensures
        forall|i: int, j: int|
            0 <= i < after.len() && 0 <= j < after.len() ==> after[i] == after[j],
{
    let total = choose|total: T| is_total(before, total) && #[trigger] is_scaled(before, total, after);
    let (degenerate, share) = choose|degenerate: bool, share: T|
        {
            &&& #[trigger] is_zero_test(total, degenerate)
            &&& #[trigger] is_share(before.len() as usize, share)
            &&& forall|i: int|
                0 <= i < before.len() ==> if degenerate {
                    #[trigger] after[i] == share
                } else {
                    is_quotient(before[i], total, #[trigger] after[i])
                }
        };
    assert forall|i: int, j: int| 0 <= i < after.len() && 0 <= j < after.len() implies after[i]
        == after[j] by {
        if !degenerate {
            assert(is_quotient(before[i], total, after[i]));
            assert(is_quotient(before[j], total, after[j]));
            assert(before[i] == before[j]);
        }
    }
}

/// What `is_scaled` says where the arithmetic is functional: each entry is
/// the quotient by the total, or, where the total is zero, one over the
/// number of entries.
proof fn lemma_scaled_entries<T: Scalar>(before: Seq<T>, total: T, after: Seq<T>)
    requires
        functional::<T>(),
        is_scaled(before, total, after),
    ensures
        after.len() == before.len(),
        forall|i: int|
            0 <= i < before.len() ==> #[trigger] after[i] == if tests_zero(total) {
                quotient_of(count_of::<T>(1), count_of::<T>(before.len() as usize))
            } else {
                quotient_of(before[i], total)
            },
{
    let (degenerate, share) = choose|degenerate: bool, share: T|
        {
            &&& #[trigger] is_zero_test(total, degenerate)
            &&& #[trigger] is_share(before.len() as usize, share)
            &&& forall|i: int|
                0 <= i < before.len() ==> if degenerate {
                    #[trigger] after[i] == share
                } else {
                    is_quotient(before[i], total, #[trigger] after[i])
                }
        };
    let (one, count) = choose|one: T, count: T|
        (#[trigger] is_quotient(one, count, share)) && is_count(1, one) && is_count(
            before.len() as usize,
            count,
        );
    assert(is_quotient(one, count, share));
    assert forall|i: int| 0 <= i < before.len() implies #[trigger] after[i] == if tests_zero(
        total,
    ) {
        quotient_of(count_of::<T>(1), count_of::<T>(before.len() as usize))
    } else {
        quotient_of(before[i], total)
    } by {
        if !degenerate {
            assert(is_quotient(before[i], total, after[i]));
        }
    }
}

/// Where the arithmetic is functional, a sequence has one normalized form.
pub proof fn lemma_normalized_unique<T: Scalar>(before: Seq<T>, after: Seq<T>, other: Seq<T>)
    requires
        functional::<T>(),
        is_normalized(before, after),
        is_normalized(before, other),
    ensures
        other == after,
{
    let total = choose|total: T| is_total(before, total) && #[trigger] is_scaled(
        before,
        total,
        after,
    );
    let total2 = choose|total: T| is_total(before, total) && #[trigger] is_scaled(
        before,
        total,
        other,
    );
    lemma_one_total(before, total);
    lemma_one_total(before, total2);
    lemma_scaled_entries(before, total, after);
    lemma_scaled_entries(before, total, other);
    assert(other =~= after);
}

/// Quotients by a divisor that is not zero total the quotient of the total.
proof fn lemma_total_of_quotients<T: Scalar>(before: Seq<T>, s: T, after: Seq<T>)
    requires
        exact::<T>(),
        !tests_zero(s),
        after.len() == before.len(),
        forall|i: int| 0 <= i < before.len() ==> #[trigger] after[i] == quotient_of(before[i], s),
    ensures
        total_of(after) == quotient_of(total_of(before), s),
    decreases before.len(),
{
    if before.len() > 0 {
        lemma_total_of_quotients(before.drop_last(), s, after.drop_last());
        assert(after.last() == after[after.len() - 1]);
        assert(before.last() == before[before.len() - 1]);
    }
}

/// `n` copies of one over `c` total `n` over `c`.
proof fn lemma_total_of_shares<T: Scalar>(after: Seq<T>, c: T)
    requires
        exact::<T>(),
        !tests_zero(c),
        after.len() <= usize::MAX,
        forall|i: int| 0 <= i < after.len() ==> #[trigger] after[i] == quotient_of(
            count_of::<T>(1),
            c,
        ),
    ensures
        total_of(after) == quotient_of(count_of::<T>(after.len() as usize), c),
    decreases after.len(),
{
    if after.len() > 0 {
        let front = after.drop_last();
        lemma_total_of_shares(front, c);
        assert(after.last() == after[after.len() - 1]);
        let n = front.len() as usize;
        assert(sum_of(count_of::<T>(n), count_of::<T>(1)) == count_of::<T>((n + 1) as usize));
    }
}

/// Where the arithmetic is exact, a normalized sequence that is not empty
/// totals one.
pub proof fn lemma_normalized_totals_one<T: Scalar>(before: Seq<T>, after: Seq<T>)
    requires
        exact::<T>(),
        before.len() >= 1,
        is_normalized(before, after),
    ensures
        is_total(after, count_of::<T>(1)),
        forall|r: T| is_total(after, r) ==> is_count(1, r),
{
    let total = choose|total: T| is_total(before, total) && #[trigger] is_scaled(before, total, after);
    lemma_one_total(before, total);
    lemma_scaled_entries(before, total, after);
    if tests_zero(total) {
        let c = count_of::<T>(before.len() as usize);
        lemma_total_of_shares(after, c);
    } else {
        lemma_total_of_quotients(before, total, after);
    }
    assert(total_of(after) == count_of::<T>(1));
    lemma_one_total(after, count_of::<T>(1));
    assert forall|r: T| is_total(after, r) implies is_count(1, r) by {
        lemma_one_total(after, r);
    }
}

/// Where the arithmetic is exact, normalizing a sequence that totals one
/// changes nothing.
pub proof fn lemma_normalized_again<T: Scalar>(before: Seq<T>, after: Seq<T>)
    requires
        exact::<T>(),
        is_total(before, count_of::<T>(1)),
        is_normalized(before, after),
    ensures
        after == before,
{
    let total = choose|total: T| is_total(before, total) && #[trigger] is_scaled(before, total, after);
    lemma_one_total(before, total);
    lemma_one_total(before, count_of::<T>(1));
    lemma_scaled_entries(before, total, after);
    assert(after =~= before);
}

/// Where the arithmetic is exact, every row of a row-normalized matrix
/// totals one, and the matrix keeps its rows and columns.
pub proof fn lemma_rows_total_one<T: Scalar>(before: Matrix<T>, after: Matrix<T>)
    requires
        exact::<T>(),
        before.shape.1 >= 1,
        is_row_normalized(before, after),
    ensures
        after.shape == before.shape,
        forall|i: int| 0 <= i < after.shape.0 ==> is_total(#[trigger] after.row(i), count_of::<T>(1)),
{
    assert forall|i: int| 0 <= i < after.shape.0 implies is_total(
        #[trigger] after.row(i),
        count_of::<T>(1),
    ) by {
        assert(is_normalized(before.row(i), after.row(i)));
        lemma_normalized_totals_one(before.row(i), after.row(i));
    }
}

/// Where the arithmetic is exact, every lane of a tensor normalized along an
/// axis totals one.
pub proof fn lemma_lanes_total_one<T: Scalar>(before: Tensor3<T>, axis: int, after: Tensor3<T>)
    requires
        exact::<T>(),
        before.extent(axis) >= 1,
        is_axis_normalized(before, axis, after),
    ensures
        after.shape == before.shape,
        forall|a: int, b: int|
            0 <= a < after.cross_shape(axis).0 && 0 <= b < after.cross_shape(axis).1 ==> is_total(
                #[trigger] after.lane(axis, a, b),
                count_of::<T>(1),
            ),
{
    assert forall|a: int, b: int|
        0 <= a < after.cross_shape(axis).0 && 0 <= b < after.cross_shape(axis).1 implies is_total(
        #[trigger] after.lane(axis, a, b),
        count_of::<T>(1),
    ) by {
        assert(is_normalized(before.lane(axis, a, b), after.lane(axis, a, b)));
        lemma_normalized_totals_one(before.lane(axis, a, b), after.lane(axis, a, b));
    }
}

/// For every word and document, the posterior over the topics totals one.
pub open spec fn posterior_totals_one<T: Scalar>(m: Matrices<T>) -> bool {
    forall|w: int, d: int|
        0 <= w < m.pz_wd.shape.1 && 0 <= d < m.pz_wd.shape.2 ==> is_total(
            #[trigger] m.pz_wd.lane(0, w, d),
            count_of::<T>(1),
        )
}

/// The probabilities of the topics total one, and so do, for every topic,
/// those of the words and those of the documents.
pub open spec fn estimates_total_one<T: Scalar>(m: Matrices<T>) -> bool {
    &&& is_total(m.pz@, count_of::<T>(1))
    &&& forall|k: int|
        0 <= k < m.pw_z.shape.0 ==> is_total(#[trigger] m.pw_z.row(k), count_of::<T>(1))
    &&& forall|k: int|
        0 <= k < m.pd_z.shape.0 ==> is_total(#[trigger] m.pd_z.row(k), count_of::<T>(1))
}

/// Where the arithmetic is exact, families normalized from starting values
/// that are not empty are distributions.
pub proof fn lemma_start_totals_one<T: Scalar>(draws: Matrices<T>, start: Matrices<T>)
    requires
        exact::<T>(),
        draws.pz@.len() >= 1,
        draws.pw_z.shape.1 >= 1,
        draws.pd_z.shape.1 >= 1,
        is_normalized(draws.pz@, start.pz@),
        is_row_normalized(draws.pw_z, start.pw_z),
        is_row_normalized(draws.pd_z, start.pd_z),
    ensures
        estimates_total_one(start),
{
    lemma_normalized_totals_one(draws.pz@, start.pz@);
    lemma_rows_total_one(draws.pw_z, start.pw_z);
    lemma_rows_total_one(draws.pd_z, start.pd_z);
}

/// Where the arithmetic is exact, a posterior update leaves, for every word
/// and document, a posterior over the topics that totals one. It changes
/// nothing else.
pub proof fn lemma_posterior_totals_one<T: Scalar>(before: Matrices<T>, after: Matrices<T>)
    requires
        exact::<T>(),
        before.pz_wd.shape.0 >= 1,
        e_stepped(before, after),
    ensures
        after.pz_wd.shape == before.pz_wd.shape,
        posterior_totals_one(after),
        estimates_total_one(before) ==> estimates_total_one(after),
{
    let joint = choose|joint: Tensor3<T>| #[trigger]
        is_joint(before, joint) && is_axis_normalized(joint, 0, after.pz_wd);
    lemma_lanes_total_one(joint, 0, after.pz_wd);
}

/// Where the arithmetic is exact, a re-estimation leaves the probabilities of
/// the topics totalling one, and so those of the words and of the documents
/// for every topic. It keeps the posterior.
pub proof fn lemma_estimates_total_one<T: Scalar>(
    counts: Matrix<T>,
    before: Matrices<T>,
    after: Matrices<T>,
)
    requires
        exact::<T>(),
        before.pz_wd.shape.0 >= 1,
        before.pz_wd.shape.1 >= 1,
        before.pz_wd.shape.2 >= 1,
        m_stepped(counts, before, after),
    ensures
        after.pz_wd == before.pz_wd,
        after.pw_z.shape == (before.pz_wd.shape.0, before.pz_wd.shape.1),
        after.pd_z.shape == (before.pz_wd.shape.0, before.pz_wd.shape.2),
        estimates_total_one(after),
{
    let (weighted, by_word, by_doc, by_topic) = choose|
        weighted: Tensor3<T>,
        by_word: Matrix<T>,
        by_doc: Matrix<T>,
        by_topic: Seq<T>,
    | #[trigger] m_step_trace(counts, before, after, weighted, by_word, by_doc, by_topic);
    lemma_normalized_totals_one(by_topic, after.pz@);
    lemma_rows_total_one(by_word, after.pw_z);
    lemma_rows_total_one(by_doc, after.pd_z);
}

/// Where the arithmetic is exact, every round of training leaves all four
/// families distributions.
pub proof fn lemma_round_totals_one<T: Scalar>(
    counts: Matrix<T>,
    before: Matrices<T>,
    after: Matrices<T>,
    llh: T,
)
    requires
        exact::<T>(),
        before.pz_wd.shape.0 >= 1,
        before.pz_wd.shape.1 >= 1,
        before.pz_wd.shape.2 >= 1,
        is_round(counts, before, after, llh),
    ensures
        after.pz_wd.shape == before.pz_wd.shape,
        posterior_totals_one(after),
        estimates_total_one(after),
{
    let posterior = choose|posterior: Matrices<T>| #[trigger]
        e_stepped(before, posterior) && m_stepped(counts, posterior, after) && is_log_likelihood(
            counts,
            after,
            llh,
        );
    lemma_posterior_totals_one(before, posterior);
    lemma_estimates_total_one(counts, posterior, after);
}

/// Where the arithmetic is exact, training keeps the families distributions
/// from its start to its end, however many rounds it runs and however it
/// stops; and once a round has run, the posterior is one too.
pub proof fn lemma_training_totals_one<T: Scalar>(
    counts: Matrix<T>,
    threshold: T,
    start: Matrices<T>,
    prev: T,
    budget: nat,
    end: Matrices<T>,
    outcome: Termination,
)
    requires
        exact::<T>(),
        start.pz_wd.shape.0 >= 1,
        start.pz_wd.shape.1 >= 1,
        start.pz_wd.shape.2 >= 1,
        is_training(counts, threshold, start, prev, budget, end, outcome),
    ensures
        end.pz_wd.shape == start.pz_wd.shape,
        estimates_total_one(start) ==> estimates_total_one(end),
        posterior_totals_one(start) || budget >= 1 ==> posterior_totals_one(end),
    decreases budget,
{
    if budget > 0 {
        let (next, llh, verdict) = choose|next: Matrices<T>, llh: T, verdict: bool|
            #![trigger is_round(counts, start, next, llh), is_convergence_test(llh, prev, threshold, verdict)]
            {
                &&& is_round(counts, start, next, llh)
                &&& is_convergence_test(llh, prev, threshold, verdict)
                &&& if verdict {
                    end == next && outcome == Termination::Converged
                } else {
                    is_training(counts, threshold, next, llh, (budget - 1) as nat, end, outcome)
                }
            };
        lemma_round_totals_one(counts, start, next, llh);
        if !verdict {
            lemma_training_totals_one(
                counts,
                threshold,
                next,
                llh,
                (budget - 1) as nat,
                end,
                outcome,
            );
        }
    }
}

} // verus!
