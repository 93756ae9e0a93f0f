use scoremodel::error::ModelError;
use scoremodel::host::HostValue;
use scoremodel::model::Model;
use scoremodel::record::{create_model, to_number, ScoreRecord};

fn times(x: u64, y: u64) -> u64 {
    (f64::from_bits(x) * f64::from_bits(y)).to_bits()
}

fn plus(x: u64, y: u64) -> u64 {
    (f64::from_bits(x) + f64::from_bits(y)).to_bits()
}

fn num(x: f64) -> HostValue {
    HostValue::Number(x.to_bits())
}

fn arr(xs: &[f64]) -> HostValue {
    HostValue::Array(xs.iter().map(|x| num(*x)).collect())
}

fn mat(m: &[&[f64]]) -> HostValue {
    HostValue::Array(m.iter().map(|r| arr(r)).collect())
}

fn request(
    alpha: HostValue,
    beta: HostValue,
    a: HostValue,
    b: HostValue,
    c: HostValue,
) -> Result<ScoreRecord, ModelError> {
    create_model("Test".to_string(), &alpha, &beta, &a, &b, &c, &times, &plus)
}

#[test]
fn number_is_read_as_its_bits() {
    assert_eq!(to_number(&num(1.5)), Ok(1.5f64.to_bits()));
    assert_eq!(to_number(&HostValue::Other), Err(ModelError::TypeMismatch));
    assert_eq!(to_number(&arr(&[1.0])), Err(ModelError::TypeMismatch));
}

#[test]
fn request_returns_fields_and_score() {
    let rec = request(
        num(2.0),
        num(3.0),
        mat(&[&[1.0, 2.0], &[3.0, 4.0]]),
        arr(&[1.0, 1.0]),
        arr(&[1.0, 1.0]),
    )
    .unwrap();
    assert_eq!(rec.name, "Test");
    assert_eq!(rec.alpha, 2.0f64.to_bits());
    assert_eq!(rec.beta, 3.0f64.to_bits());
    assert_eq!(rec.a, mat(&[&[1.0, 2.0], &[3.0, 4.0]]));
    assert_eq!(rec.b, arr(&[1.0, 1.0]));
    assert_eq!(rec.c, arr(&[1.0, 1.0]));
    assert_eq!(f64::from_bits(rec.score), 26.0);
}

#[test]
fn request_with_identity_matrix() {
    let rec = request(
        num(1.0),
        num(0.0),
        mat(&[&[1.0, 0.0], &[0.0, 1.0]]),
        arr(&[2.0, 3.0]),
        arr(&[0.0, 0.0]),
    )
    .unwrap();
    assert_eq!(f64::from_bits(rec.score), 13.0);
}

#[test]
fn request_with_zero_matrix() {
    let rec = request(
        num(0.0),
        num(1.0),
        mat(&[&[0.0, 0.0], &[0.0, 0.0]]),
        arr(&[4.0, 5.0]),
        arr(&[1.0, 1.0]),
    )
    .unwrap();
    assert_eq!(f64::from_bits(rec.score), 9.0);
}

#[test]
fn record_of_a_model_echoes_it() {
    let m = Model::new(
        "label".to_string(),
        1.0f64.to_bits(),
        1.0f64.to_bits(),
        vec![vec![2.0f64.to_bits()]],
        vec![3.0f64.to_bits()],
        vec![4.0f64.to_bits()],
    )
    .unwrap();
    let rec = m.to_object(&times, &plus);
    assert_eq!(
        rec,
        ScoreRecord {
            name: "label".to_string(),
            alpha: 1.0f64.to_bits(),
            beta: 1.0f64.to_bits(),
            a: mat(&[&[2.0]]),
            b: arr(&[3.0]),
            c: arr(&[4.0]),
            score: 30.0f64.to_bits(),
        }
    );
}

#[test]
fn weight_that_is_no_number_is_refused() {
    let r = request(HostValue::Other, num(1.0), mat(&[&[1.0]]), arr(&[1.0]), arr(&[1.0]));
    assert_eq!(r, Err(ModelError::TypeMismatch));
    let r = request(num(1.0), arr(&[1.0]), mat(&[&[1.0]]), arr(&[1.0]), arr(&[1.0]));
    assert_eq!(r, Err(ModelError::TypeMismatch));
}

#[test]
fn absent_vector_is_refused() {
    let r = request(num(1.0), num(1.0), mat(&[&[1.0]]), HostValue::Other, arr(&[1.0]));
    assert_eq!(r, Err(ModelError::TypeMismatch));
    let r = request(num(1.0), num(1.0), mat(&[&[1.0]]), arr(&[1.0]), HostValue::Other);
    assert_eq!(r, Err(ModelError::TypeMismatch));
}

#[test]
fn flat_matrix_is_refused() {
    let r = request(num(1.0), num(1.0), arr(&[1.0]), arr(&[1.0]), arr(&[1.0]));
    assert_eq!(r, Err(ModelError::TypeMismatch));
}

#[test]
fn request_with_unequal_dimensions_is_refused() {
    let r = request(num(1.0), num(1.0), mat(&[&[1.0, 2.0], &[3.0, 4.0]]), arr(&[1.0]), arr(&[1.0, 2.0]));
    assert_eq!(r, Err(ModelError::DimensionMismatch));
    let r = request(num(1.0), num(1.0), mat(&[&[1.0, 2.0]]), arr(&[1.0]), arr(&[1.0]));
    assert_eq!(r, Err(ModelError::DimensionMismatch));
    let r = request(num(1.0), num(1.0), mat(&[&[1.0]]), arr(&[1.0]), arr(&[]));
    assert_eq!(r, Err(ModelError::DimensionMismatch));
}

#[test]
fn type_error_comes_before_dimension_error() {
    let r = request(
        num(1.0),
        num(1.0),
        mat(&[&[1.0, 2.0]]),
        arr(&[1.0, 2.0, 3.0]),
        HostValue::Array(vec![HostValue::Other]),
    );
    assert_eq!(r, Err(ModelError::TypeMismatch));
}

#[test]
fn empty_request_scores_zero() {
    let rec = request(num(5.0), num(6.0), mat(&[]), arr(&[]), arr(&[])).unwrap();
    assert_eq!(rec.a, HostValue::Array(vec![]));
    assert_eq!(f64::from_bits(rec.score), 0.0);
}
