use vstd::prelude::*;
use crate::algebra::{dot_prefix, fits_elem, ints, kernel_outcome};
use crate::error::EngineError;

verus! {

/// An owned sequence of elements: one row or one column on its way to a worker.
#[derive(Debug, Clone, PartialEq, Eq)]
pub struct Vector {
    pub data: Vec<i32>,
}

impl View for Vector {
    type V = Seq<int>;

    open spec fn view(&self) -> Seq<int> {
        ints(self.data@)
    }
}

impl Vector {
    pub fn new(data: Vec<i32>) -> (v: Self)
        ensures
            v.data == data,
            v@ == ints(data@),
    {
        Self { data }
    }
}

/// A `Vector` can be read wherever its buffer can.
impl core::ops::Deref for Vector {
    type Target = Vec<i32>;

    fn deref(&self) -> (buffer: &Vec<i32>)
        ensures
            *buffer == self.data,
    {
        &self.data
    }
}

/// The product of two elements is at most `2^62` in magnitude.
proof fn lemma_elem_product_bound(x: int, y: int)
    requires
        fits_elem(x),
        fits_elem(y),
    ensures
        -0x4000_0000_0000_0000 <= x * y <= 0x4000_0000_0000_0000,
{
    assert(-0x4000_0000_0000_0000 <= x * y <= 0x4000_0000_0000_0000) by (nonlinear_arith)
        requires
            -0x8000_0000 <= x <= 0x7fff_ffff,
            -0x8000_0000 <= y <= 0x7fff_ffff,
    ;
}

/// The sum of the pairwise products of `a` and `b`.
///
/// Sequences of different lengths are refused, and so is a sum that no
/// element can hold.
pub fn dot_product(a: Vector, b: Vector) -> (r: Result<i32, EngineError>)
    ensures
        match r {
            Ok(v) => kernel_outcome(a@, b@) == Ok::<int, EngineError>(v as int),
            Err(e) => kernel_outcome(a@, b@) == Err::<int, EngineError>(e),
        },
{
    if a.data.len() != b.data.len() {
        return Err(EngineError::LengthMismatch);
    }
    let n: usize = a.data.len();
    let mut acc: i128 = 0;
    let mut k: usize = 0;
    while k < n
        invariant
            k <= n,
            n == a.data.len(),
            n == b.data.len(),
            acc == dot_prefix(a@, b@, k as nat),
            -0x4000_0000_0000_0000 * k <= acc <= 0x4000_0000_0000_0000 * k,
        decreases n - k,
    {
        let x: i128 = a.data[k] as i128;
        let y: i128 = b.data[k] as i128;
        proof {
            lemma_elem_product_bound(x as int, y as int);
            assert(a@[k as int] == x);
            assert(b@[k as int] == y);
        }
        acc = acc + x * y;
        k = k + 1;
    }
    if acc < -0x8000_0000 || acc > 0x7fff_ffff {
        Err(EngineError::Overflow)
    } else {
        Ok(acc as i32)
    }
}

} // verus!
