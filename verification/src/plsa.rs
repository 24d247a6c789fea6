//! The topic model: documents, words and latent topics, fitted to a matrix of
//! counts by alternating a posterior update and a re-estimation.
use vstd::prelude::*;
use crate::math::{cell_multiplied, tensor3_broadcast_numpy_like};
use crate::normalize::{
    is_axis_normalized, is_axis_sum, is_row_normalized, is_row_sums, normalized_axis,
    normalized_rows, scaled, share_of, sum, sum_axis, sum_rows,
};
use crate::scalar::{
    is_count, is_difference, is_less_test, is_log, is_magnitude, is_normalized, is_product,
    is_quotient, is_share, is_total, Scalar,
};
use crate::tensor::{volume, Matrix, Tensor3};

verus! {

/// The four families of probabilities of a model over `K` topics, `W` words
/// and `D` documents.
#[derive(Debug, PartialEq)]
pub struct Matrices<T> {
    /// The probability of each topic: `K` entries.
    pub pz: Vec<T>,
    /// The probability of each word given the topic: `K` rows of `W` entries.
    pub pw_z: Matrix<T>,
    /// The probability of each document given the topic: `K` rows of `D` entries.
    pub pd_z: Matrix<T>,
    /// The probability of each topic given word and document: `K` by `W` by `D`.
    pub pz_wd: Tensor3<T>,
}

impl<T: Scalar> Matrices<T> {
    /// The four families have the shapes of a model over the given numbers of
    /// documents, words and topics.
    pub open spec fn fits(&self, docs: usize, words: usize, topics: usize) -> bool {
        &&& self.pz@.len() == topics
        &&& self.pw_z.wf()
        &&& self.pw_z.shape == (topics, words)
        &&& self.pd_z.wf()
        &&& self.pd_z.shape == (topics, docs)
        &&& self.pz_wd.wf()
        &&& self.pz_wd.shape == (topics, words, docs)
    }

    /// The four families have the shapes of one model, over at least one
    /// document, word and topic: that of the posterior tells the three numbers.
    pub open spec fn wf(&self) -> bool {
        &&& self.pz_wd.shape.0 >= 1
        &&& self.pz_wd.shape.1 >= 1
        &&& self.pz_wd.shape.2 >= 1
        &&& self.fits(self.pz_wd.shape.2, self.pz_wd.shape.1, self.pz_wd.shape.0)
    }

    /// Whether the four families have the shapes of a model over the given
    /// numbers of documents, words and topics.
    pub fn has_shapes(&self, docs: usize, words: usize, topics: usize) -> (r: bool)
        ensures
            r == self.fits(docs, words, topics),
    {
        self.pz.len() == topics && self.pw_z.is_well_formed() && self.pw_z.shape.0 == topics
            && self.pw_z.shape.1 == words && self.pd_z.is_well_formed() && self.pd_z.shape.0
            == topics && self.pd_z.shape.1 == docs && self.pz_wd.is_well_formed()
            && self.pz_wd.shape.0 == topics && self.pz_wd.shape.1 == words && self.pz_wd.shape.2
            == docs
    }
}

/// `r` is `a` times `b` times `c`, multiplied in that order.
pub open spec fn is_product3<T: Scalar>(a: T, b: T, c: T, r: T) -> bool {
    exists|p: T| is_product(a, b, p) && #[trigger] is_product(p, c, r)
}

/// `joint` holds, for every topic, word and document, the probability of the
/// topic times that of the word given the topic times that of the document
/// given the topic.
pub open spec fn is_joint<T: Scalar>(m: Matrices<T>, joint: Tensor3<T>) -> bool {
    &&& joint.wf()
    &&& joint.shape == m.pz_wd.shape
    &&& forall|k: int, w: int, d: int|
        0 <= k < joint.shape.0 && 0 <= w < joint.shape.1 && 0 <= d < joint.shape.2
            ==> is_product3(m.pz@[k], m.pw_z.at(k, w), m.pd_z.at(k, d), #[trigger] joint.at(k, w, d))
}

/// `after` is `before` with the posterior recomputed: the joint, normalized
/// over the topics for every word and document.
pub open spec fn e_stepped<T: Scalar>(before: Matrices<T>, after: Matrices<T>) -> bool {
    &&& after.pz == before.pz
    &&& after.pw_z == before.pw_z
    &&& after.pd_z == before.pd_z
    &&& exists|joint: Tensor3<T>| #[trigger]
        is_joint(before, joint) && is_axis_normalized(joint, 0, after.pz_wd)
}

/// `weighted` holds, for every topic, word and document, the count of the word
/// in the document times the posterior of the topic.
pub open spec fn is_weighted<T: Scalar>(
    counts: Matrix<T>,
    posterior: Tensor3<T>,
    weighted: Tensor3<T>,
) -> bool {
    &&& weighted.wf()
    &&& weighted.shape == posterior.shape
    &&& forall|k: int, w: int, d: int|
        0 <= k < weighted.shape.0 && 0 <= w < weighted.shape.1 && 0 <= d < weighted.shape.2
            ==> is_product(counts.at(d, w), posterior.at(k, w, d), #[trigger] weighted.at(k, w, d))
}

/// The values a re-estimation passes through: the weighted counts, their
/// totals over the documents, over the words, and over both.
pub open spec fn m_step_trace<T: Scalar>(
    counts: Matrix<T>,
    before: Matrices<T>,
    after: Matrices<T>,
    weighted: Tensor3<T>,
    by_word: Matrix<T>,
    by_doc: Matrix<T>,
    by_topic: Seq<T>,
) -> bool {
    &&& is_weighted(counts, before.pz_wd, weighted)
    &&& is_axis_sum(weighted, 2, by_word)
    &&& is_axis_sum(weighted, 1, by_doc)
    &&& is_row_sums(by_word, by_topic)
    &&& is_normalized(by_topic, after.pz@)
    &&& is_row_normalized(by_word, after.pw_z)
    &&& is_row_normalized(by_doc, after.pd_z)
}

/// `after` is `before` re-estimated from the counts and the posterior: the
/// weighted counts, totalled over the documents for the words, over the words
/// for the documents and over both for the topics, each normalized.
pub open spec fn m_stepped<T: Scalar>(
    counts: Matrix<T>,
    before: Matrices<T>,
    after: Matrices<T>,
) -> bool {
    &&& after.pz_wd == before.pz_wd
    &&& exists|weighted: Tensor3<T>, by_word: Matrix<T>, by_doc: Matrix<T>, by_topic: Seq<T>|
        #[trigger] m_step_trace(counts, before, after, weighted, by_word, by_doc, by_topic)
}

/// `r` is `count` times the logarithm of `p`.
pub open spec fn is_weighted_log<T: Scalar>(count: T, p: T, r: T) -> bool {
    exists|l: T| is_log(p, l) && #[trigger] is_product(count, l, r)
}

/// The values a log-likelihood passes through: the joint; its totals over the
/// topics, laid out as the counts are; their shares of the whole; and, cell by
/// cell, the count times the logarithm of the share.
pub open spec fn log_likelihood_trace<T: Scalar>(
    counts: Matrix<T>,
    m: Matrices<T>,
    joint: Tensor3<T>,
    marginal: Matrix<T>,
    shares: Seq<T>,
    terms: Seq<T>,
    llh: T,
) -> bool {
    &&& is_joint(m, joint)
    &&& marginal.wf()
    &&& marginal.shape == counts.shape
    &&& forall|d: int, w: int|
        0 <= d < marginal.shape.0 && 0 <= w < marginal.shape.1 ==> is_total(
            joint.lane(0, w, d),
            #[trigger] marginal.at(d, w),
        )
    &&& is_normalized(marginal.data@, shares)
    &&& terms.len() == counts.data@.len()
    &&& forall|n: int|
        0 <= n < terms.len() ==> is_weighted_log(counts.data@[n], shares[n], #[trigger] terms[n])
    &&& is_total(terms, llh)
}

/// `llh` is the log-likelihood of the counts under the model: the total, over
/// documents and words, of the count times the logarithm of the probability
/// that the model gives the pair.
pub open spec fn is_log_likelihood<T: Scalar>(counts: Matrix<T>, m: Matrices<T>, llh: T) -> bool {
    exists|joint: Tensor3<T>, marginal: Matrix<T>, shares: Seq<T>, terms: Seq<T>| #[trigger]
        log_likelihood_trace(counts, m, joint, marginal, shares, terms, llh)
}

/// `aic` is the information criterion of a model of `topics` topics with the
/// log-likelihood `llh`: twice the number of topics, less twice `llh`.
pub open spec fn is_aic<T: Scalar>(topics: usize, llh: T, aic: T) -> bool {
    exists|two: T, count: T, penalty: T, fit: T|
        #![trigger is_product(two, count, penalty), is_product(two, llh, fit)]
        {
            &&& is_count(2, two)
            &&& is_count(topics, count)
            &&& is_product(two, count, penalty)
            &&& is_product(two, llh, fit)
            &&& is_difference(penalty, fit, aic)
        }
}

/// `verdict` answers whether the log-likelihood `llh` has moved from `prev` by
/// less than `threshold`, relative to `prev`: `llh` less `prev` is divided by
/// `prev`, and the magnitude of the quotient compared with `threshold`.
pub open spec fn is_convergence_test<T: Scalar>(
    llh: T,
    prev: T,
    threshold: T,
    verdict: bool,
) -> bool {
    exists|change: T, relative: T, size: T|
        #![trigger is_quotient(change, prev, relative), is_magnitude(relative, size)]
        {
            &&& is_difference(llh, prev, change)
            &&& is_quotient(change, prev, relative)
            &&& is_magnitude(relative, size)
            &&& is_less_test(size, threshold, verdict)
        }
}

/// How training ended.
#[derive(Debug, Clone, Copy, PartialEq, Eq, Structural)]
pub enum Termination {
    /// The log-likelihood moved by less than the threshold.
    Converged,
    /// The rounds ran out first.
    MaxIterReached,
}

/// One round takes the model from `before` to `after` and gives the
/// log-likelihood `llh`: a posterior update, a re-estimation, and the
/// log-likelihood of what came out.
pub open spec fn is_round<T: Scalar>(
    counts: Matrix<T>,
    before: Matrices<T>,
    after: Matrices<T>,
    llh: T,
) -> bool {
    exists|posterior: Matrices<T>| #[trigger]
        e_stepped(before, posterior) && m_stepped(counts, posterior, after) && is_log_likelihood(
            counts,
            after,
            llh,
        )
}

/// Training with `budget` rounds left takes the model from `start`, with the
/// log-likelihood `prev` behind it, to `end`, and stops as `outcome` says.
/// With no round left it stops where it is. Otherwise it runs one round and
/// tests for convergence: it stops there if the test passes, and goes on from
/// there with one round less if not.
pub open spec fn is_training<T: Scalar>(
    counts: Matrix<T>,
    threshold: T,
    start: Matrices<T>,
    prev: T,
    budget: nat,
    end: Matrices<T>,
    outcome: Termination,
) -> bool
    decreases budget,
{
    if budget == 0 {
        end == start && outcome == Termination::MaxIterReached
    } else {
        exists|next: Matrices<T>, llh: T, verdict: bool|
            #![trigger is_round(counts, start, next, llh), is_convergence_test(llh, prev, threshold, verdict)]
            {
                &&& is_round(counts, start, next, llh)
                &&& is_convergence_test(llh, prev, threshold, verdict)
                &&& if verdict {
                    end == next && outcome == Termination::Converged
                } else {
                    is_training(counts, threshold, next, llh, (budget - 1) as nat, end, outcome)
                }
            }
    }
}

/// The joint of topic, word and document under the model.
pub fn joint<T: Scalar>(m: &Matrices<T>) -> (r: Tensor3<T>)
    requires
        m.wf(),
    ensures
        is_joint(*m, r),
{
    let topics = m.pz_wd.shape.0;
    let words = m.pz_wd.shape.1;
    let docs = m.pz_wd.shape.2;
    assert(volume((topics, 1usize, 1usize)) == topics) by (nonlinear_arith);
    assert(volume((topics, words, 1usize)) == topics * words) by (nonlinear_arith);
    assert(volume((topics, 1usize, docs)) == topics * docs) by (nonlinear_arith);
    let of_topic = |k: usize, _w: usize, _d: usize| -> (v: T)
        requires
            k < topics,
        ensures
            v == m.pz@[k as int],
        { m.pz[k] };
    let of_word = |k: usize, w: usize, _d: usize| -> (v: T)
        requires
            k < topics,
            w < words,
        ensures
            v == m.pw_z.at(k as int, w as int),
        { m.pw_z.get(k, w) };
    let of_doc = |k: usize, _w: usize, d: usize| -> (v: T)
        requires
            k < topics,
            d < docs,
        ensures
            v == m.pd_z.at(k as int, d as int),
        { m.pd_z.get(k, d) };
    let pz = Tensor3::from_shape_fn((topics, 1, 1), of_topic);
    let pw_z = Tensor3::from_shape_fn((topics, words, 1), of_word);
    let pd_z = Tensor3::from_shape_fn((topics, 1, docs), of_doc);
    let pz_pw_z = tensor3_broadcast_numpy_like(&pz, &pw_z).unwrap();
    let r = tensor3_broadcast_numpy_like(&pz_pw_z, &pd_z).unwrap();
    assert forall|k: int, w: int, d: int|
        0 <= k < r.shape.0 && 0 <= w < r.shape.1 && 0 <= d < r.shape.2 implies is_product3(
        m.pz@[k],
        m.pw_z.at(k, w),
        m.pd_z.at(k, d),
        #[trigger] r.at(k, w, d),
    ) by {
        assert(cell_multiplied(pz_pw_z, pd_z, r.shape, r.data@, k, w, d));
        assert(cell_multiplied(pz, pw_z, pz_pw_z.shape, pz_pw_z.data@, k, w, 0));
        assert(call_ensures(of_topic, (k as usize, 0usize, 0usize), pz.at(k, 0, 0)));
        assert(call_ensures(of_word, (k as usize, w as usize, 0usize), pw_z.at(k, w, 0)));
        assert(call_ensures(of_doc, (k as usize, 0usize, d as usize), pd_z.at(k, 0, d)));
        assert(is_product(m.pz@[k], m.pw_z.at(k, w), pz_pw_z.at(k, w, 0)));
        assert(is_product(pz_pw_z.at(k, w, 0), m.pd_z.at(k, d), r.at(k, w, d)));
    }
    r
}

/// The log-likelihood of the counts under the model.
pub fn log_likelihood_of<T: Scalar>(counts: &Matrix<T>, m: &Matrices<T>) -> (llh: T)
    requires
        counts.wf(),
        m.wf(),
        counts.shape == (m.pz_wd.shape.2, m.pz_wd.shape.1),
    ensures
        is_log_likelihood(*counts, *m, llh),
{
    let docs = counts.shape.0;
    let words = counts.shape.1;
    let joint = joint(m);
    assert(words * docs == docs * words) by (nonlinear_arith);
    let by_pair = sum_axis(&joint, 0);
    let pair = |d: usize, w: usize| -> (v: T)
        requires
            d < docs,
            w < words,
        ensures
            v == by_pair.at(w as int, d as int),
        { by_pair.get(w, d) };
    let marginal = Matrix::from_shape_fn((docs, words), pair);
    assert forall|d: int, w: int|
        0 <= d < marginal.shape.0 && 0 <= w < marginal.shape.1 implies is_total(
        joint.lane(0, w, d),
        #[trigger] marginal.at(d, w),
    ) by {
        assert(call_ensures(pair, (d as usize, w as usize), marginal.at(d, w)));
    }
    let total = sum(&marginal.data);
    let shares = scaled(&marginal.data, total);
    let mut terms: Vec<T> = Vec::new();
    let mut n: usize = 0;
    while n < shares.len()
        invariant
            shares@.len() == counts.data@.len(),
            n <= shares.len(),
            terms@.len() == n,
            forall|i: int|
                0 <= i < n ==> is_weighted_log(counts.data@[i], shares@[i], #[trigger] terms@[i]),
        decreases shares.len() - n,
    {
        let l = shares[n].ln();
        let term = counts.data[n].times(l);
        assert(is_log(shares@[n as int], l) && is_product(counts.data@[n as int], l, term));
        terms.push(term);
        n += 1;
    }
    let llh = sum(&terms);
    assert(log_likelihood_trace(*counts, *m, joint, marginal, shares@, terms@, llh));
    llh
}

/// The information criterion of a model of `topics` topics with the
/// log-likelihood `llh`.
pub fn aic_of<T: Scalar>(topics: usize, llh: T) -> (aic: T)
    ensures
        is_aic(topics, llh, aic),
{
    let two = T::from_count(2);
    let count = T::from_count(topics);
    let penalty = two.times(count);
    let fit = two.times(llh);
    let aic = penalty.minus(fit);
    assert(is_product(two, count, penalty) && is_product(two, llh, fit));
    aic
}

/// Whether the log-likelihood `llh` has moved from `prev` by less than
/// `threshold`, relative to `prev`.
pub fn has_converged<T: Scalar>(llh: T, prev: T, threshold: T) -> (verdict: bool)
    ensures
        is_convergence_test(llh, prev, threshold, verdict),
{
    let change = llh.minus(prev);
    let relative = change.over(prev);
    let size = relative.abs();
    let verdict = size.less_than(threshold);
    assert(is_quotient(change, prev, relative) && is_magnitude(relative, size));
    verdict
}

/// When training stops.
#[derive(Debug, PartialEq)]
pub struct EMParams<T> {
    _max_iter: usize,
    _epslion: T,
}

impl<T: Scalar> EMParams<T> {
    /// The largest number of rounds that training runs.
    pub closed spec fn limit(&self) -> usize {
        self._max_iter
    }

    /// The relative change of the log-likelihood below which training stops.
    pub closed spec fn threshold(&self) -> T {
        self._epslion
    }

    /// At most 200 rounds, and a threshold of one in a million.
    pub fn new() -> (params: EMParams<T>)
        ensures
            params.limit() == 200,
            is_share(1000000, params.threshold()),
    {
        EMParams { _max_iter: 200, _epslion: share_of::<T>(1000000) }
    }

    /// Sets the largest number of rounds.
    pub fn max_iter(&mut self, max_iter: usize) -> (params: &mut EMParams<T>)
        ensures
            params.limit() == max_iter,
            params.threshold() == old(self).threshold(),
            *final(self) == *final(params),
    {
        self._max_iter = max_iter;
        self
    }

    /// Sets the threshold.
    pub fn epslion(&mut self, epslion: T) -> (params: &mut EMParams<T>)
        ensures
            params.limit() == old(self).limit(),
            params.threshold() == epslion,
            *final(self) == *final(params),
    {
        self._epslion = epslion;
        self
    }

    /// The largest number of rounds that training runs.
    pub fn get_max_iter(&self) -> (r: usize)
        ensures
            r == self.limit(),
    {
        self._max_iter
    }

    /// The relative change of the log-likelihood below which training stops.
    pub fn get_epslion(&self) -> (r: T)
        ensures
            r == self.threshold(),
    {
        self._epslion
    }
}

/// The model over a matrix of counts.
#[derive(Debug, PartialEq)]
pub struct PLSA<T> {
    input: Matrix<T>,
    n_docs: usize,
    n_words: usize,
    n_topics: usize,
    pub em_params: EMParams<T>,
    pub prob_matricies: Matrices<T>,
}

impl<T: Scalar> PLSA<T> {
    /// The counts the model is fitted to: one row per document, one column
    /// per word.
    pub closed spec fn counts(&self) -> Matrix<T> {
        self.input
    }

    /// The number of documents.
    pub closed spec fn docs(&self) -> usize {
        self.n_docs
    }

    /// The number of words.
    pub closed spec fn words(&self) -> usize {
        self.n_words
    }

    /// The number of topics.
    pub closed spec fn topics(&self) -> usize {
        self.n_topics
    }

    /// When training stops.
    pub closed spec fn params(&self) -> EMParams<T> {
        self.em_params
    }

    /// The four families of probabilities.
    pub closed spec fn matrices(&self) -> Matrices<T> {
        self.prob_matricies
    }

    /// There is at least one document, word and topic, and the counts and the
    /// four families of probabilities have the shapes that go with them.
    pub open spec fn wf(&self) -> bool {
        &&& self.docs() >= 1
        &&& self.words() >= 1
        &&& self.topics() >= 1
        &&& self.counts().wf()
        &&& self.counts().shape == (self.docs(), self.words())
        &&& self.matrices().fits(self.docs(), self.words(), self.topics())
    }

    /// Whether the counts and the four families still have the shapes that
    /// go with the numbers of documents, words and topics.
    pub fn is_well_formed(&self) -> (r: bool)
        ensures
            r == self.wf(),
    {
        self.n_docs >= 1 && self.n_words >= 1 && self.n_topics >= 1 && self.input.is_well_formed()
            && self.input.shape.0 == self.n_docs && self.input.shape.1 == self.n_words
            && self.prob_matricies.has_shapes(self.n_docs, self.n_words, self.n_topics)
    }

    /// Nothing but the probabilities differs between `self` and `other`.
    pub open spec fn same_setting(&self, other: &Self) -> bool {
        &&& self.counts() == other.counts()
        &&& self.docs() == other.docs()
        &&& self.words() == other.words()
        &&& self.topics() == other.topics()
        &&& self.params() == other.params()
    }

    /// The model over the given counts, one row per document and one column
    /// per word, with `n_topics` topics. `draws` holds the starting values of
    /// the four families; those of the topics, and each row of those of the
    /// words and of the documents, are normalized, and those of the posterior
    /// kept as they are.
    pub fn new(input: Matrix<T>, n_topics: usize, draws: Matrices<T>) -> (model: PLSA<T>)
        requires
            input.wf(),
            input.shape.0 >= 1,
            input.shape.1 >= 1,
            n_topics >= 1,
            draws.fits(input.shape.0, input.shape.1, n_topics),
        ensures
            model.wf(),
            model.counts() == input,
            model.docs() == input.shape.0,
            model.words() == input.shape.1,
            model.topics() == n_topics,
            model.params().limit() == 200,
            is_share(1000000, model.params().threshold()),
            is_normalized(draws.pz@, model.matrices().pz@),
            is_row_normalized(draws.pw_z, model.matrices().pw_z),
            is_row_normalized(draws.pd_z, model.matrices().pd_z),
            model.matrices().pz_wd == draws.pz_wd,
    {
        let n_docs = input.shape.0;
        let n_words = input.shape.1;
        let em_params = EMParams::new();
        let mut pz = draws.pz;
        let mut pw_z = draws.pw_z;
        let mut pd_z = draws.pd_z;
        Self::normalize_vector(&mut pz);
        Self::normalize_matrix_with_row(&mut pw_z);
        Self::normalize_matrix_with_row(&mut pd_z);
        let prob_matricies = Matrices { pz, pw_z, pd_z, pz_wd: draws.pz_wd };
        PLSA { input, n_docs, n_words, n_topics, em_params, prob_matricies }
    }

    /// Runs rounds of posterior update and re-estimation until the
    /// log-likelihood moves, relative to that of the round before, by less
    /// than the threshold, or the rounds run out. The first round is
    /// compared with a log-likelihood of 1000.
    pub fn train(&mut self) -> (outcome: Termination)
        requires
            old(self).wf(),
        ensures
            final(self).wf(),
            final(self).same_setting(old(self)),
            exists|sentinel: T|
                is_count(1000, sentinel) && #[trigger] is_training(
                    old(self).counts(),
                    old(self).params().threshold(),
                    old(self).matrices(),
                    sentinel,
                    old(self).params().limit() as nat,
                    final(self).matrices(),
                    outcome,
                ),
    {
        let mut prev_llh = T::from_count(1000);
        let ghost sentinel = prev_llh;
        let ghost counts = self.counts();
        let ghost threshold = self.params().threshold();
        let ghost start = self.matrices();
        let limit = self.em_params._max_iter;
        let mut round: usize = 0;
        while round < limit
            invariant
                self.wf(),
                self.same_setting(old(self)),
                counts == self.counts(),
                threshold == self.params().threshold(),
                limit == self.params().limit(),
                start == old(self).matrices(),
                is_count(1000, sentinel),
                round <= limit,
                forall|end: Matrices<T>, outcome: Termination| #[trigger]
                    is_training(
                        counts,
                        threshold,
                        self.matrices(),
                        prev_llh,
                        (limit - round) as nat,
                        end,
                        outcome,
                    ) ==> is_training(
                        counts,
                        threshold,
                        start,
                        sentinel,
                        limit as nat,
                        end,
                        outcome,
                    ),
            decreases limit - round,
        {
            let ghost before = self.matrices();
            self.e_step();
            self.m_step();
            let llh = self.log_likelifood();
            let verdict = has_converged(llh, prev_llh, self.em_params._epslion);
            assert(is_round(counts, before, self.matrices(), llh));
            if verdict {
                assert(is_training(
                    counts,
                    threshold,
                    before,
                    prev_llh,
                    (limit - round) as nat,
                    self.matrices(),
                    Termination::Converged,
                ));
                return Termination::Converged;
            }
            assert forall|end: Matrices<T>, outcome: Termination| #[trigger]
                is_training(
                    counts,
                    threshold,
                    self.matrices(),
                    llh,
                    (limit - (round + 1)) as nat,
                    end,
                    outcome,
                ) implies is_training(
                counts,
                threshold,
                start,
                sentinel,
                limit as nat,
                end,
                outcome,
            ) by {
                assert(is_training(
                    counts,
                    threshold,
                    before,
                    prev_llh,
                    (limit - round) as nat,
                    end,
                    outcome,
                ));
            }
            prev_llh = llh;
            round += 1;
        }
        assert(is_training(
            counts,
            threshold,
            self.matrices(),
            prev_llh,
            (limit - round) as nat,
            self.matrices(),
            Termination::MaxIterReached,
        ));
        Termination::MaxIterReached
    }

    /// The log-likelihood of the counts under the model as it stands.
    pub fn log_likelifood(&self) -> (llh: T)
        requires
            self.wf(),
        ensures
            is_log_likelihood(self.counts(), self.matrices(), llh),
    {
        log_likelihood_of(&self.input, &self.prob_matricies)
    }

    /// The information criterion of the model as it stands: twice the number
    /// of topics, less twice the log-likelihood.
    pub fn calc_aic(&self) -> (aic: T)
        requires
            self.wf(),
        ensures
            exists|llh: T| #[trigger]
                is_log_likelihood(self.counts(), self.matrices(), llh) && is_aic(
                    self.topics(),
                    llh,
                    aic,
                ),
    {
        let llh = self.log_likelifood();
        aic_of(self.n_topics, llh)
    }

    /// Divides a vector by its total; a vector whose total is zero becomes
    /// uniform.
    pub fn normalize_vector(vec: &mut Vec<T>)
        ensures
            is_normalized(old(vec)@, final(vec)@),
    {
        let total = sum(vec);
        let r = scaled(vec, total);
        *vec = r;
    }

    /// Divides every row of a matrix by its total; a row whose total is zero
    /// becomes uniform.
    pub fn normalize_matrix_with_row(mat: &mut Matrix<T>)
        requires
            old(mat).wf(),
        ensures
            is_row_normalized(*old(mat), *final(mat)),
    {
        let r = normalized_rows(mat);
        *mat = r;
    }

    /// The counts the model is fitted to.
    pub fn input(&self) -> (r: &Matrix<T>)
        ensures
            *r == self.counts(),
    {
        &self.input
    }

    /// The number of documents.
    pub fn n_docs(&self) -> (r: usize)
        ensures
            r == self.docs(),
    {
        self.n_docs
    }

    /// The number of words.
    pub fn n_words(&self) -> (r: usize)
        ensures
            r == self.words(),
    {
        self.n_words
    }

    /// The number of topics.
    pub fn n_topics(&self) -> (r: usize)
        ensures
            r == self.topics(),
    {
        self.n_topics
    }

    /// Recomputes the posterior of the topics from the three other families.
    pub fn e_step(&mut self)
        requires
            old(self).wf(),
        ensures
            final(self).wf(),
            final(self).same_setting(old(self)),
            e_stepped(old(self).matrices(), final(self).matrices()),
    {
        let joint = joint(&self.prob_matricies);
        assert(joint.cross_shape(0).0 * joint.cross_shape(0).1 <= usize::MAX) by {
            assert(self.counts().shape.0 * self.counts().shape.1 == joint.shape.1 * joint.shape.2)
                by (nonlinear_arith)
                requires
                    self.counts().shape.0 == joint.shape.2,
                    self.counts().shape.1 == joint.shape.1,
            ;
        }
        self.prob_matricies.pz_wd = normalized_axis(&joint, 0);
        assert(is_joint(old(self).prob_matricies, joint) && is_axis_normalized(
            joint,
            0,
            self.prob_matricies.pz_wd,
        ));
    }

    /// Re-estimates the three families from the counts and the posterior.
    pub fn m_step(&mut self)
        requires
            old(self).wf(),
        ensures
            final(self).wf(),
            final(self).same_setting(old(self)),
            m_stepped(old(self).counts(), old(self).matrices(), final(self).matrices()),
    {
        let docs = self.n_docs;
        let words = self.n_words;
        let topics = self.n_topics;
        assert(volume((1usize, words, docs)) == docs * words) by (nonlinear_arith);
        let input = &self.input;
        let count = |_k: usize, w: usize, d: usize| -> (v: T)
            requires
                w < words,
                d < docs,
            ensures
                v == input.at(d as int, w as int),
            { input.get(d, w) };
        let counts = Tensor3::from_shape_fn((1, words, docs), count);
        let weighted = tensor3_broadcast_numpy_like(&counts, &self.prob_matricies.pz_wd).unwrap();
        assert forall|k: int, w: int, d: int|
            0 <= k < weighted.shape.0 && 0 <= w < weighted.shape.1 && 0 <= d
                < weighted.shape.2 implies is_product(
            self.input.at(d, w),
            self.prob_matricies.pz_wd.at(k, w, d),
            #[trigger] weighted.at(k, w, d),
        ) by {
            assert(cell_multiplied(
                counts,
                self.prob_matricies.pz_wd,
                weighted.shape,
                weighted.data@,
                k,
                w,
                d,
            ));
            assert(call_ensures(count, (0usize, w as usize, d as usize), counts.at(0, w, d)));
        }
        let by_word = sum_axis(&weighted, 2);
        let by_doc = sum_axis(&weighted, 1);
        let by_topic = sum_rows(&by_word);
        let total = sum(&by_topic);
        self.prob_matricies.pz = scaled(&by_topic, total);
        self.prob_matricies.pw_z = normalized_rows(&by_word);
        self.prob_matricies.pd_z = normalized_rows(&by_doc);
        assert(m_step_trace(
            old(self).counts(),
            old(self).prob_matricies,
            self.prob_matricies,
            weighted,
            by_word,
            by_doc,
            by_topic@,
        ));
    }
}

} // verus!
