use crate::error::ModelError;
use vstd::prelude::*;

verus! {

/// A value in the form in which a host hands it over: dynamically typed, with
/// arrays of any length and any content.
#[derive(Debug, PartialEq, Eq)]
pub enum HostValue {
    /// A number: the bit pattern of a double.
    Number(u64),
    /// An array of further values.
    Array(Vec<HostValue>),
    /// Anything that is neither a number nor an array, an absent value included.
    Other,
}

/// The rows of a matrix as sequences.
pub open spec fn grid(rows: Seq<Vec<u64>>) -> Seq<Seq<u64>> {
    Seq::new(rows.len(), |i: int| rows[i]@)
}

/// `h` is an array and every element of it is a number.
pub open spec fn is_vector(h: HostValue) -> bool {
    &&& h is Array
    &&& forall|i: int| 0 <= i < h->Array_0@.len() ==> (#[trigger] h->Array_0@[i]) is Number
}

/// The numbers that the array `h` holds, in its order.
pub open spec fn vector_of(h: HostValue) -> Seq<u64>
    recommends
        is_vector(h),
{
    Seq::new(h->Array_0@.len(), |i: int| h->Array_0@[i]->Number_0)
}

/// `h` is an array and every element of it is an array of numbers.
pub open spec fn is_matrix(h: HostValue) -> bool {
    &&& h is Array
    &&& forall|i: int| 0 <= i < h->Array_0@.len() ==> is_vector(#[trigger] h->Array_0@[i])
}

/// The rows that the array of arrays `h` holds, in its order.
pub open spec fn matrix_of(h: HostValue) -> Seq<Seq<u64>>
    recommends
        is_matrix(h),
{
    Seq::new(h->Array_0@.len(), |i: int| vector_of(h->Array_0@[i]))
}

/// `h` is the host form of the vector `v`: an array of the same length whose
/// element at each index is the number that `v` has there.
pub open spec fn encodes_vector(h: HostValue, v: Seq<u64>) -> bool {
    &&& h is Array
    &&& h->Array_0@.len() == v.len()
    &&& forall|i: int| 0 <= i < v.len() ==> (#[trigger] h->Array_0@[i]) == HostValue::Number(v[i])
}

/// `h` is the host form of the matrix `m`: an array of the same length whose
/// element at each index is the host form of the row that `m` has there.
pub open spec fn encodes_matrix(h: HostValue, m: Seq<Seq<u64>>) -> bool {
    &&& h is Array
    &&& h->Array_0@.len() == m.len()
    &&& forall|i: int| 0 <= i < m.len() ==> encodes_vector(#[trigger] h->Array_0@[i], m[i])
}

/// Reads a host array of numbers as a vector. Order and values are kept as they
/// are; an empty array gives an empty vector. Fails with `TypeMismatch` where
/// `arr` is no array or one of its elements is no number.
pub fn array_to_vec(arr: &HostValue) -> (r: Result<Vec<u64>, ModelError>)
    ensures
        match r {
            Ok(v) => is_vector(*arr) && v@ == vector_of(*arr),
            Err(e) => !is_vector(*arr) && e == ModelError::TypeMismatch,
        },
{
    match arr {
        HostValue::Array(items) => {
            let mut out: Vec<u64> = Vec::with_capacity(items.len());
            let mut i: usize = 0;
            while i < items.len()
                invariant
                    *arr is Array,
                    arr->Array_0@ == items@,
                    i <= items@.len(),
                    out@.len() == i,
                    forall|k: int|
                        0 <= k < i ==> (#[trigger] items@[k]) == HostValue::Number(out@[k]),
                decreases items@.len() - i,
            {
                match &items[i] {
                    HostValue::Number(x) => {
                        out.push(*x);
                    },
                    _ => {
                        assert(!(arr->Array_0@[i as int] is Number));
                        return Err(ModelError::TypeMismatch);
                    },
                }
                i += 1;
            }
            assert(out@ =~= vector_of(*arr));
            Ok(out)
        },
        _ => Err(ModelError::TypeMismatch),
    }
}

/// Reads a host array of arrays of numbers as a matrix, row by row. Rows may
/// differ in length here; an empty outer array gives an empty matrix. Fails with
/// `TypeMismatch` where `arr` is no array or one of its rows is no array of
/// numbers.
pub fn array_to_vec_vec(arr: &HostValue) -> (r: Result<Vec<Vec<u64>>, ModelError>)
    ensures
        match r {
            Ok(m) => is_matrix(*arr) && grid(m@) == matrix_of(*arr),
            Err(e) => !is_matrix(*arr) && e == ModelError::TypeMismatch,
        },
{
    match arr {
        HostValue::Array(items) => {
            let mut out: Vec<Vec<u64>> = Vec::with_capacity(items.len());
            let mut i: usize = 0;
            while i < items.len()
                invariant
                    *arr is Array,
                    arr->Array_0@ == items@,
                    i <= items@.len(),
                    out@.len() == i,
                    forall|k: int| 0 <= k < i ==> is_vector(#[trigger] items@[k]),
                    forall|k: int| 0 <= k < i ==> (#[trigger] out@[k])@ == vector_of(items@[k]),
                decreases items@.len() - i,
            {
                match array_to_vec(&items[i]) {
                    Ok(row) => {
                        out.push(row);
                    },
                    Err(_) => {
                        assert(!is_vector(arr->Array_0@[i as int]));
                        return Err(ModelError::TypeMismatch);
                    },
                }
                i += 1;
            }
            assert(grid(out@) =~= matrix_of(*arr));
            Ok(out)
        },
        _ => Err(ModelError::TypeMismatch),
    }
}

/// Writes a vector as a host array: one number for each element, in order.
pub fn vec_to_array(v: &Vec<u64>) -> (h: HostValue)
    ensures
        encodes_vector(h, v@),
{
    let mut items: Vec<HostValue> = Vec::with_capacity(v.len());
    let mut i: usize = 0;
    while i < v.len()
        invariant
            i <= v@.len(),
            items@.len() == i,
            forall|k: int| 0 <= k < i ==> (#[trigger] items@[k]) == HostValue::Number(v@[k]),
        decreases v@.len() - i,
    {
        items.push(HostValue::Number(v[i]));
        i += 1;
    }
    HostValue::Array(items)
}

/// Writes a matrix as a host array of arrays: one array for each row, in order.
pub fn vec_to_vec_array(m: &Vec<Vec<u64>>) -> (h: HostValue)
    ensures
        encodes_matrix(h, grid(m@)),
{
    let mut items: Vec<HostValue> = Vec::with_capacity(m.len());
    let mut i: usize = 0;
    while i < m.len()
        invariant
            i <= m@.len(),
            items@.len() == i,
            forall|k: int| 0 <= k < i ==> encodes_vector(#[trigger] items@[k], m@[k]@),
        decreases m@.len() - i,
    {
        items.push(vec_to_array(&m[i]));
        i += 1;
    }
    HostValue::Array(items)
}

/// A vector written as a host array and read back is the vector it was, element
/// for element and bit for bit.
pub proof fn lemma_vector_round_trip(v: Seq<u64>, h: HostValue)
    requires
        encodes_vector(h, v),
    ensures
        is_vector(h),
        vector_of(h) == v,
{
    assert(vector_of(h) =~= v);
}

/// A matrix written as a host array of arrays and read back is the matrix it
/// was, row for row and bit for bit.
pub proof fn lemma_matrix_round_trip(m: Seq<Seq<u64>>, h: HostValue)
    requires
        encodes_matrix(h, m),
    ensures
        is_matrix(h),
        matrix_of(h) == m,
{
    assert forall|i: int| 0 <= i < m.len() implies is_vector(#[trigger] h->Array_0@[i])
        && vector_of(h->Array_0@[i]) == m[i] by {
        lemma_vector_round_trip(m[i], h->Array_0@[i]);
    }
    assert(matrix_of(h) =~= m);
}

/// A host array of numbers is the host form of the vector read from it, so that
/// reading it and writing the result gives an array with the same elements.
pub proof fn lemma_vector_read_write(h: HostValue)
    requires
        is_vector(h),
    ensures
        encodes_vector(h, vector_of(h)),
{
}

/// A host array of arrays of numbers is the host form of the matrix read from it.
pub proof fn lemma_matrix_read_write(h: HostValue)
    requires
        is_matrix(h),
    ensures
        encodes_matrix(h, matrix_of(h)),
{
    assert forall|i: int| 0 <= i < matrix_of(h).len() implies encodes_vector(
        #[trigger] h->Array_0@[i],
        matrix_of(h)[i],
    ) by {
        lemma_vector_read_write(h->Array_0@[i]);
    }
}

} // verus!
