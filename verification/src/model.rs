use crate::error::ModelError;
use crate::host::grid;
use vstd::prelude::*;

verus! {

/// The dimension rule of a model: the matrix `a` is square, and the vectors
/// `b` and `c` are as long as its side.
pub open spec fn dimensions_agree(a: Seq<Seq<u64>>, b: Seq<u64>, c: Seq<u64>) -> bool {
    &&& b.len() == a.len()
    &&& c.len() == a.len()
    &&& forall|i: int| 0 <= i < a.len() ==> (#[trigger] a[i]).len() == a.len()
}

/// What a model is: its label, its two weights, its matrix by rows and its two
/// vectors. Each number is the bit pattern of a double.
pub struct ModelView {
    pub name: Seq<char>,
    pub alpha: u64,
    pub beta: u64,
    pub a: Seq<Seq<u64>>,
    pub b: Seq<u64>,
    pub c: Seq<u64>,
}

impl ModelView {
    /// The side of the matrix, which is also the length of both vectors.
    pub open spec fn side(self) -> nat {
        self.b.len()
    }

    /// The dimension rule holds of this value.
    pub open spec fn well_formed(self) -> bool {
        dimensions_agree(self.a, self.b, self.c)
    }
}

/// A model whose dimensions agree. It is built once, by `new`, and never
/// changed afterwards.
pub struct Model {
    name: String,
    alpha: u64,
    beta: u64,
    a: Vec<Vec<u64>>,
    b: Vec<u64>,
    c: Vec<u64>,
}

impl View for Model {
    type V = ModelView;

    closed spec fn view(&self) -> ModelView {
        ModelView {
            name: self.name@,
            alpha: self.alpha,
            beta: self.beta,
            a: grid(self.a@),
            b: self.b@,
            c: self.c@,
        }
    }
}

impl Model {
    #[verifier::type_invariant]
    spec fn dimensions_hold(self) -> bool {
        dimensions_agree(grid(self.a@), self.b@, self.c@)
    }

    /// Builds a model from its parts, after checking the dimension rule.
    /// Fails with `DimensionMismatch` exactly where the rule is broken: where
    /// `a` is not square, or `b` or `c` is not as long as the side of `a`.
    pub fn new(
        name: String,
        alpha: u64,
        beta: u64,
        a: Vec<Vec<u64>>,
        b: Vec<u64>,
        c: Vec<u64>,
    ) -> (r: Result<Model, ModelError>)
        ensures
            match r {
                Ok(m) => dimensions_agree(grid(a@), b@, c@) && m@ == (ModelView {
                    name: name@,
                    alpha: alpha,
                    beta: beta,
                    a: grid(a@),
                    b: b@,
                    c: c@,
                }),
                Err(e) => !dimensions_agree(grid(a@), b@, c@) && e
                    == ModelError::DimensionMismatch,
            },
    {
        let n: usize = a.len();
        if b.len() != n || c.len() != n {
            return Err(ModelError::DimensionMismatch);
        }
        let mut i: usize = 0;
        while i < n
            invariant
                n == a@.len(),
                i <= n,
                forall|k: int| 0 <= k < i ==> (#[trigger] grid(a@)[k]).len() == n,
            decreases n - i,
        {
            if a[i].len() != n {
                assert(grid(a@)[i as int].len() != n);
                return Err(ModelError::DimensionMismatch);
            }
            i += 1;
        }
        Ok(Model { name, alpha, beta, a, b, c })
    }

    /// The label of the model.
    pub fn name(&self) -> (r: &String)
        ensures
            r@ == self@.name,
    {
        &self.name
    }

    /// The weight of the bilinear term.
    pub fn alpha(&self) -> (r: u64)
        ensures
            r == self@.alpha,
    {
        self.alpha
    }

    /// The weight of the linear term.
    pub fn beta(&self) -> (r: u64)
        ensures
            r == self@.beta,
    {
        self.beta
    }

    /// The matrix, by rows.
    pub fn a(&self) -> (r: &Vec<Vec<u64>>)
        ensures
            grid(r@) == self@.a,
            self@.well_formed(),
    {
        proof {
            use_type_invariant(self);
        }
        &self.a
    }

    /// The vector that enters both terms.
    pub fn b(&self) -> (r: &Vec<u64>)
        ensures
            r@ == self@.b,
            self@.well_formed(),
    {
        proof {
            use_type_invariant(self);
        }
        &self.b
    }

    /// The vector of the linear term.
    pub fn c(&self) -> (r: &Vec<u64>)
        ensures
            r@ == self@.c,
            self@.well_formed(),
    {
        proof {
            use_type_invariant(self);
        }
        &self.c
    }

    /// The side of the matrix, which is also the length of both vectors.
    pub fn side(&self) -> (n: usize)
        ensures
            n == self@.side(),
            self@.well_formed(),
    {
        proof {
            use_type_invariant(self);
        }
        self.b.len()
    }
}

} // verus!
