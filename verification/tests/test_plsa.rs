use ndarray as na;
use ndarray_rand::{rand_distr::Uniform, RandomExt};
use plsa_rs::normalize::{normalized_axis, normalized_rows, scaled, share_of, sum, sum_axis, sum_rows};
use plsa_rs::plsa::{aic_of, has_converged, joint, log_likelihood_of};
use plsa_rs::{EMParams, Matrices, Matrix, Scalar, Tensor3, Termination, PLSA};

#[derive(Clone, Copy, Debug, PartialEq)]
struct Real(f64);

impl Scalar for Real {
    fn from_count(n: usize) -> Self {
        Real(n as f64)
    }
    fn plus(self, rhs: Self) -> Self {
        Real(self.0 + rhs.0)
    }
    fn minus(self, rhs: Self) -> Self {
        Real(self.0 - rhs.0)
    }
    fn times(self, rhs: Self) -> Self {
        Real(self.0 * rhs.0)
    }
    fn over(self, rhs: Self) -> Self {
        Real(self.0 / rhs.0)
    }
    fn ln(self) -> Self {
        Real(self.0.ln())
    }
    fn abs(self) -> Self {
        Real(self.0.abs())
    }
    fn is_zero(self) -> bool {
        self.0 == 0.0
    }
    fn less_than(self, rhs: Self) -> bool {
        self.0 < rhs.0
    }
}

fn reals(values: &[f64]) -> Vec<Real> {
    values.iter().map(|x| Real(*x)).collect()
}

fn matrix(shape: (usize, usize), values: &[f64]) -> Matrix<Real> {
    Matrix::from_shape_vec(shape, reals(values)).unwrap()
}

fn tensor(shape: (usize, usize, usize), values: &[f64]) -> Tensor3<Real> {
    Tensor3::from_shape_vec(shape, reals(values)).unwrap()
}

fn close(a: f64, b: f64) -> bool {
    (a - b).abs() < 1e-9
}

fn total(values: &[Real]) -> f64 {
    values.iter().map(|x| x.0).sum()
}

fn example_input() -> Matrix<Real> {
    let input = na::Array::from_shape_vec(
        (5, 4),
        vec![
            20, 23, 1, 4, 25, 19, 3, 0, 2, 1, 31, 28, 0, 1, 22, 17, 1, 0, 18, 24,
        ],
    )
    .unwrap()
    .mapv(|x| x as f64);
    Matrix::from_shape_vec((5, 4), input.iter().map(|x| Real(*x)).collect()).unwrap()
}

fn random_draws(n_docs: usize, n_words: usize, n_topics: usize) -> Matrices<Real> {
    let pz = na::Array1::random(n_topics, Uniform::new(0.0, 1.0));
    let pw_z = na::Array2::random((n_topics, n_words), Uniform::new(0.0, 1.0));
    let pd_z = na::Array2::random((n_topics, n_docs), Uniform::new(0.0, 1.0));
    let pz_wd = na::Array3::random((n_topics, n_words, n_docs), Uniform::new(0.0, 1.0));
    Matrices {
        pz: pz.iter().map(|x| Real(*x)).collect(),
        pw_z: Matrix::from_shape_vec(
            (n_topics, n_words),
            pw_z.iter().map(|x| Real(*x)).collect(),
        )
        .unwrap(),
        pd_z: Matrix::from_shape_vec((n_topics, n_docs), pd_z.iter().map(|x| Real(*x)).collect())
            .unwrap(),
        pz_wd: Tensor3::from_shape_vec(
            (n_topics, n_words, n_docs),
            pz_wd.iter().map(|x| Real(*x)).collect(),
        )
        .unwrap(),
    }
}

fn fixed_draws(n_docs: usize, n_words: usize, n_topics: usize) -> Matrices<Real> {
    let mut state: u64 = 0x2545_f491_4f6c_dd1d;
    let mut next = move || {
        state = state
            .wrapping_mul(6364136223846793005)
            .wrapping_add(1442695040888963407);
        Real(((state >> 11) as f64) / ((1u64 << 53) as f64))
    };
    Matrices {
        pz: (0..n_topics).map(|_| next()).collect(),
        pw_z: Matrix::from_shape_vec(
            (n_topics, n_words),
            (0..n_topics * n_words).map(|_| next()).collect(),
        )
        .unwrap(),
        pd_z: Matrix::from_shape_vec(
            (n_topics, n_docs),
            (0..n_topics * n_docs).map(|_| next()).collect(),
        )
        .unwrap(),
        pz_wd: Tensor3::from_shape_vec(
            (n_topics, n_words, n_docs),
            (0..n_topics * n_words * n_docs).map(|_| next()).collect(),
        )
        .unwrap(),
    }
}

/// Two topics, two words, one document, with probabilities that are exact in
/// binary.
fn small_model() -> PLSA<Real> {
    let draws = Matrices {
        pz: reals(&[0.5, 0.5]),
        pw_z: matrix((2, 2), &[0.25, 0.75, 0.5, 0.5]),
        pd_z: matrix((2, 1), &[1.0, 1.0]),
        pz_wd: tensor((2, 2, 1), &[0.25, 0.5, 0.75, 0.5]),
    };
    PLSA::new(matrix((1, 2), &[3.0, 5.0]), 2, draws)
}

fn assert_families_are_distributions(plsa: &PLSA<Real>, n_docs: usize, n_words: usize, n_topics: usize) {
    let m = &plsa.prob_matricies;
    assert_eq!(m.pz.len(), n_topics);
    assert!(close(total(&m.pz), 1.0));
    assert_eq!(m.pw_z.shape, (n_topics, n_words));
    assert_eq!(m.pd_z.shape, (n_topics, n_docs));
    for k in 0..n_topics {
        assert!(close(total(&m.pw_z.data[k * n_words..(k + 1) * n_words]), 1.0));
        assert!(close(total(&m.pd_z.data[k * n_docs..(k + 1) * n_docs]), 1.0));
    }
}

fn assert_posterior_is_a_distribution(plsa: &PLSA<Real>, n_docs: usize, n_words: usize, n_topics: usize) {
    let posterior = &plsa.prob_matricies.pz_wd;
    assert_eq!(posterior.shape, (n_topics, n_words, n_docs));
    for w in 0..n_words {
        for d in 0..n_docs {
            let over_topics: f64 = (0..n_topics).map(|k| posterior.get(k, w, d).0).sum();
            assert!(close(over_topics, 1.0));
        }
    }
}

#[test]
fn normalize_vec() {
    let mut array = reals(&[1., 2., 3.]);
    PLSA::normalize_vector(&mut array);
    println!("==> {:?}", array);
    assert_eq!(array, reals(&[1. / 6., 2. / 6., 3. / 6.]));
}

#[test]
fn normalize_matrix_with_row() {
    let mut mat = matrix((2, 3), &[1., 2., 3., 4., 5., 6.]);
    PLSA::normalize_matrix_with_row(&mut mat);
    assert_eq!(
        mat,
        matrix(
            (2, 3),
            &[1. / 6., 2. / 6., 3. / 6., 4. / 15., 5. / 15., 6. / 15.]
        )
    );
}

#[test]
fn integrate_test() {
    let input = example_input();
    let mut params = EMParams::<Real>::new();
    params.max_iter(200);
    let mut plsa = PLSA::new(input, 2, random_draws(5, 4, 2));
    plsa.train();
    println!("{:?}", plsa.prob_matricies.pz);
}

#[test]
fn heavy_integrate_test() {
    let input = example_input();
    let mut params = EMParams::<Real>::new();
    params.max_iter(200);
    let mut plsa = PLSA::new(input, 2, random_draws(5, 4, 2));
    plsa.train();
    println!("{:?}", plsa.prob_matricies.pz);
}

#[test]
fn sum_adds_from_zero_first_to_last() {
    assert_eq!(sum::<Real>(&vec![]), Real(0.0));
    assert_eq!(sum(&reals(&[1.5])), Real(1.5));
    let big = 9007199254740992.0;
    assert_eq!(sum(&reals(&[big, 1.0, -big])), Real((big + 1.0) - big));
    assert_eq!(sum(&reals(&[big, -big, 1.0])), Real(1.0));
}

#[test]
fn share_of_is_one_over_the_count() {
    assert_eq!(share_of::<Real>(4), Real(0.25));
    assert_eq!(share_of::<Real>(3), Real(1.0 / 3.0));
    assert_eq!(share_of::<Real>(1000000), Real(1e-6));
}

#[test]
fn scaled_divides_by_the_divisor_given() {
    assert_eq!(
        scaled(&reals(&[1.0, 2.0, 5.0]), Real(4.0)),
        reals(&[0.25, 0.5, 1.25])
    );
    assert_eq!(
        scaled(&reals(&[1.0, 2.0, 5.0, 7.0]), Real(0.0)),
        reals(&[0.25, 0.25, 0.25, 0.25])
    );
    assert_eq!(scaled::<Real>(&vec![], Real(0.0)), vec![]);
}

#[test]
fn normalizing_equal_values_gives_the_uniform_distribution() {
    let mut v = reals(&[7.0, 7.0, 7.0, 7.0]);
    PLSA::normalize_vector(&mut v);
    assert_eq!(v, reals(&[0.25, 0.25, 0.25, 0.25]));
    assert_eq!(total(&v), 1.0);
    let mut v = reals(&[0.3, 0.3, 0.3]);
    PLSA::normalize_vector(&mut v);
    assert!(v[0] == v[1] && v[1] == v[2]);
    assert!(close(total(&v), 1.0));
}

#[test]
fn normalizing_a_normalized_vector_changes_nothing() {
    let mut v = reals(&[0.125, 0.5, 0.375]);
    PLSA::normalize_vector(&mut v);
    assert_eq!(v, reals(&[0.125, 0.5, 0.375]));
    let mut v = reals(&[3.0, 1.0, 4.0, 1.0, 5.0]);
    PLSA::normalize_vector(&mut v);
    let once = v.clone();
    PLSA::normalize_vector(&mut v);
    for (a, b) in v.iter().zip(once.iter()) {
        assert!(close(a.0, b.0));
    }
}

#[test]
fn normalizing_a_zero_vector_gives_the_uniform_distribution() {
    let mut v = reals(&[0.0, 0.0, 0.0, 0.0, 0.0]);
    PLSA::normalize_vector(&mut v);
    assert_eq!(v, reals(&[0.2, 0.2, 0.2, 0.2, 0.2]));
    let mut v = reals(&[1.0, -1.0]);
    PLSA::normalize_vector(&mut v);
    assert_eq!(v, reals(&[0.5, 0.5]));
    let mut v: Vec<Real> = vec![];
    PLSA::normalize_vector(&mut v);
    assert!(v.is_empty());
}

#[test]
fn normalized_rows_sum_to_one_and_keep_their_length() {
    let mut mat = matrix(
        (3, 4),
        &[
            0.3, 0.9, 0.1, 0.7, 5.0, 1.0, 1.0, 1.0, 0.01, 0.02, 0.03, 0.04,
        ],
    );
    PLSA::normalize_matrix_with_row(&mut mat);
    assert_eq!(mat.shape, (3, 4));
    assert_eq!(mat.data.len(), 12);
    for i in 0..3 {
        assert!(close(total(&mat.data[4 * i..4 * i + 4]), 1.0));
    }
    assert_eq!(mat.get(1, 0), Real(5.0 / 8.0));
}

#[test]
fn a_zero_row_becomes_uniform() {
    let mut mat = matrix((2, 4), &[0.0, 0.0, 0.0, 0.0, 1.0, 1.0, 2.0, 4.0]);
    PLSA::normalize_matrix_with_row(&mut mat);
    assert_eq!(
        mat,
        matrix((2, 4), &[0.25, 0.25, 0.25, 0.25, 0.125, 0.125, 0.25, 0.5])
    );
    assert_eq!(
        normalized_rows(&matrix((1, 2), &[0.0, 0.0])),
        matrix((1, 2), &[0.5, 0.5])
    );
}

#[test]
fn sums_along_each_axis() {
    let t = tensor((2, 2, 3), &[1., 2., 3., 4., 5., 6., 7., 8., 9., 10., 11., 12.]);
    assert_eq!(sum_axis(&t, 0), matrix((2, 3), &[8., 10., 12., 14., 16., 18.]));
    assert_eq!(sum_axis(&t, 1), matrix((2, 3), &[5., 7., 9., 17., 19., 21.]));
    assert_eq!(sum_axis(&t, 2), matrix((2, 2), &[6., 15., 24., 33.]));
    assert_eq!(
        sum_rows(&matrix((2, 3), &[1., 2., 3., 4., 5., 6.])),
        reals(&[6., 15.])
    );
}

#[test]
fn normalizes_along_an_axis() {
    let t = tensor((2, 2, 1), &[1., 0., 3., 0.]);
    assert_eq!(
        normalized_axis(&t, 0),
        tensor((2, 2, 1), &[0.25, 0.5, 0.75, 0.5])
    );
    assert_eq!(
        normalized_axis(&t, 1),
        tensor((2, 2, 1), &[1., 0., 1., 0.])
    );
    assert_eq!(
        normalized_axis(&t, 2),
        tensor((2, 2, 1), &[1., 1., 1., 1.])
    );
}

#[test]
fn new_keeps_the_counts_and_normalizes_the_draws() {
    let draws = Matrices {
        pz: reals(&[1.0, 3.0]),
        pw_z: matrix((2, 3), &[1.0, 1.0, 2.0, 0.5, 0.25, 0.25]),
        pd_z: matrix((2, 2), &[3.0, 1.0, 0.0, 0.0]),
        pz_wd: tensor((2, 3, 2), &[0.9; 12]),
    };
    let input = matrix((2, 3), &[1.0, 2.0, 3.0, 4.0, 5.0, 6.0]);
    let plsa = PLSA::new(input, 2, draws);
    assert_eq!(plsa.n_docs(), 2);
    assert_eq!(plsa.n_words(), 3);
    assert_eq!(plsa.n_topics(), 2);
    assert_eq!(*plsa.input(), matrix((2, 3), &[1.0, 2.0, 3.0, 4.0, 5.0, 6.0]));
    assert_eq!(plsa.em_params.get_max_iter(), 200);
    assert_eq!(plsa.em_params.get_epslion(), Real(1e-6));
    assert_eq!(plsa.prob_matricies.pz, reals(&[0.25, 0.75]));
    assert_eq!(
        plsa.prob_matricies.pw_z,
        matrix((2, 3), &[0.25, 0.25, 0.5, 0.5, 0.25, 0.25])
    );
    assert_eq!(
        plsa.prob_matricies.pd_z,
        matrix((2, 2), &[0.75, 0.25, 0.5, 0.5])
    );
    assert_eq!(plsa.prob_matricies.pz_wd, tensor((2, 3, 2), &[0.9; 12]));
}

#[test]
fn params_default_to_200_rounds_and_one_in_a_million() {
    let params = EMParams::<Real>::new();
    assert_eq!(params.get_max_iter(), 200);
    assert_eq!(params.get_epslion(), Real(1e-6));
}

#[test]
fn params_can_be_set_one_after_the_other() {
    let mut params = EMParams::<Real>::new();
    params.max_iter(7);
    assert_eq!(params.get_max_iter(), 7);
    assert_eq!(params.get_epslion(), Real(1e-6));
    params.epslion(Real(0.5));
    assert_eq!(params.get_max_iter(), 7);
    assert_eq!(params.get_epslion(), Real(0.5));
    params.max_iter(9).epslion(Real(0.125));
    assert_eq!(params.get_max_iter(), 9);
    assert_eq!(params.get_epslion(), Real(0.125));
}

#[test]
fn joint_multiplies_the_three_families() {
    let plsa = small_model();
    assert_eq!(
        joint(&plsa.prob_matricies),
        tensor((2, 2, 1), &[0.125, 0.375, 0.25, 0.25])
    );
}

#[test]
fn e_step_normalizes_the_joint_over_the_topics() {
    let mut plsa = small_model();
    plsa.e_step();
    assert_eq!(
        plsa.prob_matricies.pz_wd,
        tensor(
            (2, 2, 1),
            &[0.125 / 0.375, 0.375 / 0.625, 0.25 / 0.375, 0.25 / 0.625]
        )
    );
    assert_eq!(plsa.prob_matricies.pz, reals(&[0.5, 0.5]));
    assert_eq!(plsa.prob_matricies.pw_z, matrix((2, 2), &[0.25, 0.75, 0.5, 0.5]));
    assert_eq!(plsa.prob_matricies.pd_z, matrix((2, 1), &[1.0, 1.0]));
}

#[test]
fn e_step_gives_a_cell_without_mass_the_uniform_posterior() {
    let draws = Matrices {
        pz: reals(&[0.5, 0.5]),
        pw_z: matrix((2, 2), &[0.0, 1.0, 0.0, 1.0]),
        pd_z: matrix((2, 1), &[1.0, 1.0]),
        pz_wd: tensor((2, 2, 1), &[0.0; 4]),
    };
    let mut plsa = PLSA::new(matrix((1, 2), &[3.0, 5.0]), 2, draws);
    plsa.e_step();
    assert_eq!(
        plsa.prob_matricies.pz_wd,
        tensor((2, 2, 1), &[0.5, 0.5, 0.5, 0.5])
    );
    for cell in plsa.prob_matricies.pz_wd.data.iter() {
        assert!(cell.0.is_finite());
    }
}

#[test]
fn m_step_totals_the_weighted_counts() {
    let mut plsa = small_model();
    plsa.m_step();
    assert_eq!(plsa.prob_matricies.pz, reals(&[3.25 / 8.0, 4.75 / 8.0]));
    assert_eq!(
        plsa.prob_matricies.pw_z,
        matrix(
            (2, 2),
            &[0.75 / 3.25, 2.5 / 3.25, 2.25 / 4.75, 2.5 / 4.75]
        )
    );
    assert_eq!(plsa.prob_matricies.pd_z, matrix((2, 1), &[1.0, 1.0]));
    assert_eq!(
        plsa.prob_matricies.pz_wd,
        tensor((2, 2, 1), &[0.25, 0.5, 0.75, 0.5])
    );
}

#[test]
fn m_step_tells_documents_and_words_apart() {
    let draws = Matrices {
        pz: reals(&[1.0]),
        pw_z: matrix((1, 3), &[1.0, 1.0, 2.0]),
        pd_z: matrix((1, 2), &[1.0, 1.0]),
        pz_wd: tensor((1, 3, 2), &[1.0; 6]),
    };
    let mut plsa = PLSA::new(matrix((2, 3), &[1.0, 2.0, 5.0, 4.0, 0.0, 4.0]), 1, draws);
    plsa.m_step();
    assert_eq!(plsa.prob_matricies.pz, reals(&[1.0]));
    assert_eq!(
        plsa.prob_matricies.pw_z,
        matrix((1, 3), &[5.0 / 16.0, 2.0 / 16.0, 9.0 / 16.0])
    );
    assert_eq!(plsa.prob_matricies.pd_z, matrix((1, 2), &[0.5, 0.5]));
}

#[test]
fn log_likelihood_weighs_the_logs_by_the_counts() {
    let plsa = small_model();
    let expected = (0.0 + 3.0 * (0.375f64).ln()) + 5.0 * (0.625f64).ln();
    assert_eq!(plsa.log_likelifood(), Real(expected));
    assert_eq!(
        log_likelihood_of(plsa.input(), &plsa.prob_matricies),
        Real(expected)
    );
}

#[test]
fn log_likelihood_lays_the_pairs_out_as_the_counts_are() {
    let draws = Matrices {
        pz: reals(&[1.0]),
        pw_z: matrix((1, 2), &[0.25, 0.75]),
        pd_z: matrix((1, 2), &[0.5, 0.5]),
        pz_wd: tensor((1, 2, 2), &[1.0; 4]),
    };
    let plsa = PLSA::new(matrix((2, 2), &[1.0, 2.0, 3.0, 4.0]), 1, draws);
    let expected = (((0.0 + 1.0 * (0.125f64).ln()) + 2.0 * (0.375f64).ln())
        + 3.0 * (0.125f64).ln())
        + 4.0 * (0.375f64).ln();
    assert_eq!(plsa.log_likelifood(), Real(expected));
}

#[test]
fn aic_is_twice_the_topics_less_twice_the_log_likelihood() {
    assert_eq!(aic_of(2, Real(-3.5)), Real(11.0));
    assert_eq!(aic_of(5, Real(0.0)), Real(10.0));
    let plsa = small_model();
    let llh = plsa.log_likelifood();
    assert_eq!(plsa.calc_aic(), Real(2.0 * 2.0 - 2.0 * llh.0));
}

#[test]
fn convergence_compares_the_relative_change_with_the_threshold() {
    assert!(has_converged(Real(-100.0), Real(-100.00001), Real(1e-6)));
    assert!(!has_converged(Real(-100.0), Real(-100.1), Real(1e-6)));
    assert!(!has_converged(Real(-100.0), Real(1000.0), Real(1e-6)));
    assert!(has_converged(Real(-99.0), Real(-100.0), Real(0.02)));
    assert!(has_converged(Real(-101.0), Real(-100.0), Real(0.02)));
    assert!(!has_converged(Real(-102.0), Real(-100.0), Real(0.02)));
    assert!(!has_converged(Real(-100.0), Real(-100.0), Real(0.0)));
}

#[test]
fn training_without_rounds_changes_nothing() {
    let mut plsa = PLSA::new(example_input(), 2, fixed_draws(5, 4, 2));
    let untouched = PLSA::new(example_input(), 2, fixed_draws(5, 4, 2));
    plsa.em_params.max_iter(0);
    assert_eq!(plsa.train(), Termination::MaxIterReached);
    assert_eq!(plsa.prob_matricies, untouched.prob_matricies);
}

#[test]
fn the_first_round_never_converges() {
    let mut plsa = PLSA::new(example_input(), 2, fixed_draws(5, 4, 2));
    let mut by_hand = PLSA::new(example_input(), 2, fixed_draws(5, 4, 2));
    plsa.em_params.max_iter(1);
    assert_eq!(plsa.train(), Termination::MaxIterReached);
    by_hand.e_step();
    by_hand.m_step();
    assert_eq!(plsa.prob_matricies, by_hand.prob_matricies);
}

#[test]
fn training_stops_at_the_first_round_that_passes_the_test() {
    let mut plsa = PLSA::new(example_input(), 2, fixed_draws(5, 4, 2));
    let mut by_hand = PLSA::new(example_input(), 2, fixed_draws(5, 4, 2));
    plsa.em_params.epslion(Real(f64::INFINITY));
    assert_eq!(plsa.train(), Termination::Converged);
    by_hand.e_step();
    by_hand.m_step();
    assert_eq!(plsa.prob_matricies, by_hand.prob_matricies);
}

#[test]
fn training_runs_the_rounds_it_is_given() {
    let mut plsa = PLSA::new(example_input(), 2, fixed_draws(5, 4, 2));
    let mut by_hand = PLSA::new(example_input(), 2, fixed_draws(5, 4, 2));
    plsa.em_params.max_iter(3).epslion(Real(0.0));
    assert_eq!(plsa.train(), Termination::MaxIterReached);
    for _ in 0..3 {
        by_hand.e_step();
        by_hand.m_step();
    }
    assert_eq!(plsa.prob_matricies, by_hand.prob_matricies);
}

#[test]
fn training_converges_on_the_example() {
    let mut plsa = PLSA::new(example_input(), 2, fixed_draws(5, 4, 2));
    let before = plsa.log_likelifood();
    assert_eq!(plsa.train(), Termination::Converged);
    let after = plsa.log_likelifood();
    assert!(before.0 < after.0);
    assert_families_are_distributions(&plsa, 5, 4, 2);
    assert_posterior_is_a_distribution(&plsa, 5, 4, 2);
    let mut again = PLSA::new(example_input(), 2, fixed_draws(5, 4, 2));
    again.em_params.max_iter(200);
    assert_eq!(again.train(), Termination::Converged);
    assert_eq!(again.prob_matricies, plsa.prob_matricies);
}

#[test]
fn every_step_keeps_the_families_distributions() {
    let mut plsa = PLSA::new(example_input(), 3, random_draws(5, 4, 3));
    assert_families_are_distributions(&plsa, 5, 4, 3);
    for _ in 0..10 {
        plsa.e_step();
        assert_posterior_is_a_distribution(&plsa, 5, 4, 3);
        plsa.m_step();
        assert_families_are_distributions(&plsa, 5, 4, 3);
    }
}

#[test]
fn log_likelihood_of_positive_counts_is_finite() {
    let counts: Vec<f64> = (1..=12).map(|x| x as f64).collect();
    for n_topics in 1..5 {
        let mut plsa = PLSA::new(
            matrix((3, 4), &counts),
            n_topics,
            random_draws(3, 4, n_topics),
        );
        assert!(plsa.log_likelifood().0.is_finite());
        plsa.e_step();
        plsa.m_step();
        assert!(plsa.log_likelifood().0.is_finite());
        assert!(plsa.calc_aic().0.is_finite());
    }
}

#[test]
fn one_round_on_the_example() {
    let mut plsa = PLSA::new(example_input(), 2, random_draws(5, 4, 2));
    plsa.e_step();
    plsa.m_step();
    assert_eq!(plsa.prob_matricies.pz.len(), 2);
    assert!(close(total(&plsa.prob_matricies.pz), 1.0));
    assert_eq!(plsa.prob_matricies.pw_z.shape, (2, 4));
    assert_eq!(plsa.prob_matricies.pd_z.shape, (2, 5));
    assert_families_are_distributions(&plsa, 5, 4, 2);
    let llh = plsa.log_likelifood();
    assert!(llh.0.is_finite());
    assert!(llh.0 <= 0.0);
}

#[test]
fn shapes_of_the_families_can_be_tested() {
    let mut plsa = small_model();
    assert!(plsa.is_well_formed());
    assert!(plsa.prob_matricies.has_shapes(1, 2, 2));
    assert!(!plsa.prob_matricies.has_shapes(2, 1, 2));
    assert!(!plsa.prob_matricies.has_shapes(1, 2, 3));
    plsa.prob_matricies.pz.push(Real(0.0));
    assert!(!plsa.is_well_formed());
    plsa.prob_matricies.pz.pop();
    assert!(plsa.is_well_formed());
    plsa.prob_matricies.pd_z = matrix((2, 2), &[0.5, 0.5, 0.5, 0.5]);
    assert!(!plsa.is_well_formed());
}
