use crate::error::ModelError;
use crate::host::{
    array_to_vec, array_to_vec_vec, encodes_matrix, encodes_vector, is_matrix, is_vector,
    matrix_of, vec_to_array, vec_to_vec_array, vector_of, HostValue,
};
use crate::model::{dimensions_agree, Model, ModelView};
use crate::score::is_score;
use vstd::prelude::*;

verus! {

/// What a scoring request returns: the fields of the model, the matrix and the
/// vectors in host form, and the score.
#[derive(Debug, PartialEq, Eq)]
pub struct ScoreRecord {
    pub name: String,
    pub alpha: u64,
    pub beta: u64,
    pub a: HostValue,
    pub b: HostValue,
    pub c: HostValue,
    pub score: u64,
}

/// `rec` repeats every field of the model `m`: the label and the weights as
/// they are, the matrix and the vectors in host form.
pub open spec fn echoes(rec: ScoreRecord, m: ModelView) -> bool {
    &&& rec.name@ == m.name
    &&& rec.alpha == m.alpha
    &&& rec.beta == m.beta
    &&& encodes_matrix(rec.a, m.a)
    &&& encodes_vector(rec.b, m.b)
    &&& encodes_vector(rec.c, m.c)
}

/// The five inputs of a request have the types that a model asks for: two
/// numbers, an array of arrays of numbers and two arrays of numbers.
pub open spec fn well_typed(
    alpha: HostValue,
    beta: HostValue,
    a: HostValue,
    b: HostValue,
    c: HostValue,
) -> bool {
    &&& alpha is Number
    &&& beta is Number
    &&& is_matrix(a)
    &&& is_vector(b)
    &&& is_vector(c)
}

/// The model that well-typed inputs describe.
pub open spec fn model_of(
    name: Seq<char>,
    alpha: HostValue,
    beta: HostValue,
    a: HostValue,
    b: HostValue,
    c: HostValue,
) -> ModelView
    recommends
        well_typed(alpha, beta, a, b, c),
{
    ModelView {
        name: name,
        alpha: alpha->Number_0,
        beta: beta->Number_0,
        a: matrix_of(a),
        b: vector_of(b),
        c: vector_of(c),
    }
}

/// Reads a host value as a number. Fails with `TypeMismatch` where it is none.
pub fn to_number(h: &HostValue) -> (r: Result<u64, ModelError>)
    ensures
        match r {
            Ok(x) => *h == HostValue::Number(x),
            Err(e) => !(*h is Number) && e == ModelError::TypeMismatch,
        },
{
    match h {
        HostValue::Number(x) => Ok(*x),
        _ => Err(ModelError::TypeMismatch),
    }
}

impl Model {
    /// Builds the record of this model: its fields, and its score under the
    /// multiplication `times` and the addition `plus`.
    pub fn to_object<M: Fn(u64, u64) -> u64, A: Fn(u64, u64) -> u64>(
        &self,
        times: &M,
        plus: &A,
    ) -> (rec: ScoreRecord)
        requires
            forall|x: u64, y: u64| call_requires(*times, (x, y)),
            forall|x: u64, y: u64| call_requires(*plus, (x, y)),
        ensures
            echoes(rec, self@),
            is_score(self@, *times, *plus, rec.score),
    {
        let name = self.name().clone();
        let a = vec_to_vec_array(self.a());
        let b = vec_to_array(self.b());
        let c = vec_to_array(self.c());
        let score: u64 = self.calc_score(times, plus);
        ScoreRecord { name, alpha: self.alpha(), beta: self.beta(), a, b, c, score }
    }
}

/// Answers one scoring request. The inputs are read from their host form,
/// the model is built with its dimensions checked, and its record is returned.
///
/// Fails with `TypeMismatch` where an input has not the type asked for: a
/// weight that is no number, an array that is absent or no array, an element
/// that is no number. Otherwise fails with `DimensionMismatch` where the matrix
/// is not square or a vector is not as long as its side. Otherwise succeeds.
pub fn create_model<M: Fn(u64, u64) -> u64, A: Fn(u64, u64) -> u64>(
    name: String,
    alpha: &HostValue,
    beta: &HostValue,
    a: &HostValue,
    b: &HostValue,
    c: &HostValue,
    times: &M,
    plus: &A,
) -> (r: Result<ScoreRecord, ModelError>)
    requires
        forall|x: u64, y: u64| call_requires(*times, (x, y)),
        forall|x: u64, y: u64| call_requires(*plus, (x, y)),
    ensures
        match r {
            Ok(rec) => {
                &&& well_typed(*alpha, *beta, *a, *b, *c)
                &&& model_of(name@, *alpha, *beta, *a, *b, *c).well_formed()
                &&& echoes(rec, model_of(name@, *alpha, *beta, *a, *b, *c))
                &&& is_score(
                    model_of(name@, *alpha, *beta, *a, *b, *c),
                    *times,
                    *plus,
                    rec.score,
                )
            },
            Err(e) => if well_typed(*alpha, *beta, *a, *b, *c) {
                !model_of(name@, *alpha, *beta, *a, *b, *c).well_formed() && e
                    == ModelError::DimensionMismatch
            } else {
                e == ModelError::TypeMismatch
            },
        },
{
    let alpha_bits: u64 = match to_number(alpha) {
        Ok(x) => x,
        Err(e) => {
            return Err(e);
        },
    };
    let beta_bits: u64 = match to_number(beta) {
        Ok(x) => x,
        Err(e) => {
            return Err(e);
        },
    };
    let rows = match array_to_vec_vec(a) {
        Ok(m) => m,
        Err(e) => {
            return Err(e);
        },
    };
    let first = match array_to_vec(b) {
        Ok(v) => v,
        Err(e) => {
            return Err(e);
        },
    };
    let second = match array_to_vec(c) {
        Ok(v) => v,
        Err(e) => {
            return Err(e);
        },
    };
    match Model::new(name, alpha_bits, beta_bits, rows, first, second) {
        Ok(model) => Ok(model.to_object(times, plus)),
        Err(e) => Err(e),
    }
}

} // verus!
