use scoremodel::error::ModelError;
use scoremodel::model::Model;

fn times(x: u64, y: u64) -> u64 {
    (f64::from_bits(x) * f64::from_bits(y)).to_bits()
}

fn plus(x: u64, y: u64) -> u64 {
    (f64::from_bits(x) + f64::from_bits(y)).to_bits()
}

fn bits(xs: &[f64]) -> Vec<u64> {
    xs.iter().map(|x| x.to_bits()).collect()
}

fn rows(m: &[&[f64]]) -> Vec<Vec<u64>> {
    m.iter().map(|r| bits(r)).collect()
}

fn model(alpha: f64, beta: f64, a: &[&[f64]], b: &[f64], c: &[f64]) -> Model {
    Model::new("m".to_string(), alpha.to_bits(), beta.to_bits(), rows(a), bits(b), bits(c))
        .unwrap()
}

fn score(alpha: f64, beta: f64, a: &[&[f64]], b: &[f64], c: &[f64]) -> f64 {
    f64::from_bits(model(alpha, beta, a, b, c).calc_score(&times, &plus))
}

fn mix(x: u64, y: u64) -> u64 {
    x.wrapping_mul(3).wrapping_add(y.wrapping_mul(5)).wrapping_add(1)
}

fn fold(x: u64, y: u64) -> u64 {
    x.wrapping_mul(7).wrapping_add(y.wrapping_mul(11)).wrapping_add(2)
}

#[test]
fn identity_matrix_gives_squared_length() {
    let s = score(1.0, 0.0, &[&[1.0, 0.0], &[0.0, 1.0]], &[2.0, 3.0], &[0.0, 0.0]);
    assert_eq!(s, 13.0);
}

#[test]
fn zero_matrix_leaves_linear_term() {
    let s = score(0.0, 1.0, &[&[0.0, 0.0], &[0.0, 0.0]], &[4.0, 5.0], &[1.0, 1.0]);
    assert_eq!(s, 9.0);
}

#[test]
fn both_terms_are_weighted_and_added() {
    let m = model(2.0, 3.0, &[&[1.0, 2.0], &[3.0, 4.0]], &[1.0, 1.0], &[1.0, 1.0]);
    assert_eq!(f64::from_bits(m.bilinear_term(&times, &plus)), 10.0);
    assert_eq!(f64::from_bits(m.linear_term(&times, &plus)), 2.0);
    assert_eq!(f64::from_bits(m.calc_score(&times, &plus)), 26.0);
}

#[test]
fn zero_vector_scores_zero() {
    let s = score(2.5, 7.0, &[&[1.0, 2.0], &[3.0, 4.0]], &[0.0, 0.0], &[5.0, 6.0]);
    assert_eq!(s, 0.0);
    let t = score(-2.5, 7.0, &[&[-1.0, 2.0], &[3.0, 4.0]], &[0.0, 0.0], &[5.0, -6.0]);
    assert_eq!(t, 0.0);
}

#[test]
fn reindexing_keeps_score_of_symmetric_matrix() {
    let s = score(
        2.0,
        3.0,
        &[&[1.0, 2.0, 3.0], &[2.0, 4.0, 5.0], &[3.0, 5.0, 6.0]],
        &[1.0, 2.0, 3.0],
        &[7.0, 8.0, 9.0],
    );
    // The same model with the indices 0, 1, 2 taken to 2, 0, 1.
    let t = score(
        2.0,
        3.0,
        &[&[4.0, 5.0, 2.0], &[5.0, 6.0, 3.0], &[2.0, 3.0, 1.0]],
        &[2.0, 3.0, 1.0],
        &[8.0, 9.0, 7.0],
    );
    assert_eq!(s, 2.0 * 157.0 + 3.0 * 50.0);
    assert_eq!(s, t);
}

#[test]
fn bilinear_sum_runs_in_row_major_order() {
    // In exact arithmetic the sum is 2; each 1 is lost to rounding beside 1e16.
    let m = model(1.0, 0.0, &[&[1e16, 1.0], &[1.0, -1e16]], &[1.0, 1.0], &[0.0, 0.0]);
    assert_eq!(f64::from_bits(m.bilinear_term(&times, &plus)), 0.0);
    // With the rows exchanged the large values cancel first.
    let m = model(1.0, 0.0, &[&[1e16, -1e16], &[1.0, 1.0]], &[1.0, 1.0], &[0.0, 0.0]);
    assert_eq!(f64::from_bits(m.bilinear_term(&times, &plus)), 2.0);
}

#[test]
fn linear_sum_runs_in_index_order() {
    let m = model(
        0.0,
        1.0,
        &[&[0.0, 0.0, 0.0], &[0.0, 0.0, 0.0], &[0.0, 0.0, 0.0]],
        &[1.0, 1.0, 1.0],
        &[1e16, 1.0, -1e16],
    );
    assert_eq!(f64::from_bits(m.linear_term(&times, &plus)), 0.0);
    let m = model(
        0.0,
        1.0,
        &[&[0.0, 0.0, 0.0], &[0.0, 0.0, 0.0], &[0.0, 0.0, 0.0]],
        &[1.0, 1.0, 1.0],
        &[1e16, -1e16, 1.0],
    );
    assert_eq!(f64::from_bits(m.linear_term(&times, &plus)), 1.0);
}

#[test]
fn operations_are_made_on_the_stated_operands() {
    let (a00, a01, a10, a11): (u64, u64, u64, u64) = (2, 3, 5, 7);
    let (b0, b1): (u64, u64) = (11, 13);
    let (c0, c1): (u64, u64) = (17, 19);
    let (alpha, beta): (u64, u64) = (23, 29);
    let m = Model::new(
        "m".to_string(),
        alpha,
        beta,
        vec![vec![a00, a01], vec![a10, a11]],
        vec![b0, b1],
        vec![c0, c1],
    )
    .unwrap();
    let mut s: u64 = 0;
    s = fold(s, mix(a00, mix(b0, b0)));
    s = fold(s, mix(a01, mix(b0, b1)));
    s = fold(s, mix(a10, mix(b1, b0)));
    s = fold(s, mix(a11, mix(b1, b1)));
    let mut t: u64 = 0;
    t = fold(t, mix(c0, b0));
    t = fold(t, mix(c1, b1));
    assert_eq!(m.bilinear_term(&mix, &fold), s);
    assert_eq!(m.linear_term(&mix, &fold), t);
    assert_eq!(m.calc_score(&mix, &fold), fold(mix(alpha, s), mix(beta, t)));
    assert_eq!(m.calc_score(&mix, &fold), 71307425);
}

#[test]
fn empty_model_scores_zero() {
    let m = Model::new("m".to_string(), 5.0f64.to_bits(), 6.0f64.to_bits(), vec![], vec![], vec![])
        .unwrap();
    assert_eq!(m.side(), 0);
    assert_eq!(f64::from_bits(m.calc_score(&times, &plus)), 0.0);
}

#[test]
fn one_by_one_model() {
    assert_eq!(score(2.0, 3.0, &[&[5.0]], &[7.0], &[11.0]), 2.0 * 245.0 + 3.0 * 77.0);
}

#[test]
fn model_keeps_its_parts() {
    let m = model(2.0, 3.0, &[&[1.0, 2.0], &[3.0, 4.0]], &[5.0, 6.0], &[7.0, 8.0]);
    assert_eq!(m.name(), "m");
    assert_eq!(m.alpha(), 2.0f64.to_bits());
    assert_eq!(m.beta(), 3.0f64.to_bits());
    assert_eq!(m.a(), &rows(&[&[1.0, 2.0], &[3.0, 4.0]]));
    assert_eq!(m.b(), &bits(&[5.0, 6.0]));
    assert_eq!(m.c(), &bits(&[7.0, 8.0]));
    assert_eq!(m.side(), 2);
}

#[test]
fn matrix_with_a_short_row_is_refused() {
    let r = Model::new(
        "m".to_string(),
        0,
        0,
        vec![vec![1, 2], vec![3]],
        vec![1, 2],
        vec![1, 2],
    );
    assert_eq!(r.err(), Some(ModelError::DimensionMismatch));
}

#[test]
fn matrix_with_long_rows_is_refused() {
    let r = Model::new(
        "m".to_string(),
        0,
        0,
        vec![vec![1, 2, 3], vec![4, 5, 6]],
        vec![1, 2],
        vec![1, 2],
    );
    assert_eq!(r.err(), Some(ModelError::DimensionMismatch));
}

#[test]
fn vector_b_of_other_length_is_refused() {
    let r = Model::new(
        "m".to_string(),
        0,
        0,
        vec![vec![1, 2], vec![3, 4]],
        vec![1, 2, 3],
        vec![1, 2],
    );
    assert_eq!(r.err(), Some(ModelError::DimensionMismatch));
    let r = Model::new("m".to_string(), 0, 0, vec![vec![1, 2], vec![3, 4]], vec![1], vec![1, 2]);
    assert_eq!(r.err(), Some(ModelError::DimensionMismatch));
}

#[test]
fn vector_c_of_other_length_is_refused() {
    let r = Model::new("m".to_string(), 0, 0, vec![vec![1, 2], vec![3, 4]], vec![1, 2], vec![1]);
    assert_eq!(r.err(), Some(ModelError::DimensionMismatch));
    let r = Model::new("m".to_string(), 0, 0, vec![], vec![], vec![1]);
    assert_eq!(r.err(), Some(ModelError::DimensionMismatch));
}

#[test]
fn reindexing_can_change_the_rounding() {
    // Both matrices are diagonal, and the second is the first with the
    // indices 1 and 2 exchanged; the order of the terms decides what is lost.
    let s = score(
        1.0,
        0.0,
        &[&[1e16, 0.0, 0.0, 0.0], &[0.0, 1.0, 0.0, 0.0], &[0.0, 0.0, -1e16, 0.0], &[
            0.0, 0.0, 0.0, 1.0,
        ]],
        &[1.0, 1.0, 1.0, 1.0],
        &[0.0, 0.0, 0.0, 0.0],
    );
    let t = score(
        1.0,
        0.0,
        &[&[1e16, 0.0, 0.0, 0.0], &[0.0, -1e16, 0.0, 0.0], &[0.0, 0.0, 1.0, 0.0], &[
            0.0, 0.0, 0.0, 1.0,
        ]],
        &[1.0, 1.0, 1.0, 1.0],
        &[0.0, 0.0, 0.0, 0.0],
    );
    assert_eq!(s, 1.0);
    assert_eq!(t, 2.0);
}

#[test]
fn infinite_coefficient_beside_zero_vector_gives_no_number() {
    let s = score(1.0, 1.0, &[&[f64::INFINITY]], &[0.0], &[1.0]);
    assert!(s.is_nan());
}

#[test]
fn zero_score_may_be_the_negative_zero() {
    let m = model(-1.0, -1.0, &[&[1.0]], &[0.0], &[1.0]);
    let s = m.calc_score(&times, &plus);
    assert_eq!(s, 0x8000_0000_0000_0000);
    assert_eq!(f64::from_bits(s), 0.0);
}

fn product(x: u64, y: u64) -> u64 {
    x.wrapping_mul(y)
}

fn sum(x: u64, y: u64) -> u64 {
    x.wrapping_add(y)
}

#[test]
fn reindexing_keeps_score_in_exact_arithmetic() {
    let m = Model::new(
        "m".to_string(),
        2,
        3,
        vec![vec![1, 20, 300], vec![4, 50, 600], vec![7, 80, 900]],
        vec![1, 2, 3],
        vec![7, 8, 9],
    )
    .unwrap();
    // The same model with the indices 0, 1, 2 taken to 2, 0, 1.
    let r = Model::new(
        "m".to_string(),
        2,
        3,
        vec![vec![50, 600, 4], vec![80, 900, 7], vec![20, 300, 1]],
        vec![2, 3, 1],
        vec![8, 9, 7],
    )
    .unwrap();
    let s = m.calc_score(&product, &sum);
    assert_eq!(s, 2 * 13350 + 3 * 50);
    assert_eq!(r.calc_score(&product, &sum), s);
}
