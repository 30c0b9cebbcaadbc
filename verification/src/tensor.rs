use crate::layout::{AssignedCell, Layouter};
use crate::shape::{checked_shape_prod, shape_prod};
use crate::Error;
use vstd::prelude::*;

verus! {

/// A dynamically-shaped tensor of committed wires: an explicit shape
/// descriptor (ordered dimension sizes) paired with a flat backing in
/// row-major order. All reshaping and broadcasting is expressed as pure
/// index mapping over the flat backing.
#[derive(Debug)]
pub struct Tensor {
    pub shape: Vec<usize>,
    pub data: Vec<AssignedCell>,
}

impl Tensor {
    /// Well-formed: exactly one wire per position of the shape.
    pub open spec fn wf(self) -> bool {
        self.data@.len() == shape_prod(self.shape@)
    }

    /// All wires refer into `ly` with their committed values.
    pub open spec fn wires_ok(self, ly: Layouter) -> bool {
        forall|i: int| 0 <= i < self.data@.len() ==> ly.wire_ok(#[trigger] self.data@[i])
    }

    /// Builds a tensor from a shape and a flat backing, rejecting a
    /// backing whose length does not match the shape's element count.
    pub fn new(shape: Vec<usize>, data: Vec<AssignedCell>) -> (r: Result<Tensor, Error>)
        ensures
            match r {
                Ok(t) => {
                    &&& t.shape@ == shape@
                    &&& t.data@ == data@
                    &&& t.wf()
                },
                Err(e) => {
                    &&& e == Error::ShapeMismatch
                    &&& data@.len() != shape_prod(shape@)
                },
            },
    {
        let backing_len = data.len();
        match checked_shape_prod(&shape) {
            Some(n) => {
                if n == backing_len {
                    Ok(Tensor { shape, data })
                } else {
                    Err(Error::ShapeMismatch)
                }
            },
            None => Err(Error::ShapeMismatch),
        }
    }
}

/// Copies a shape descriptor.
pub fn copy_shape(s: &Vec<usize>) -> (r: Vec<usize>)
    ensures
        r@ == s@,
{
    let mut r: Vec<usize> = Vec::new();
    let mut i: usize = 0;
    while i < s.len()
        invariant
            0 <= i <= s@.len(),
            r@.len() == i,
            forall|j: int| 0 <= j < i ==> r@[j] == s@[j],
        decreases s@.len() - i,
    {
        r.push(s[i]);
        i += 1;
    }
    proof {
        assert(r@ =~= s@);
    }
    r
}

/// Copies a flat wire vector. Wire handles are reused, never
/// re-committed: the copy refers to the same cells.
pub fn copy_wires(d: &Vec<AssignedCell>) -> (r: Vec<AssignedCell>)
    ensures
        r@ == d@,
{
    let mut r: Vec<AssignedCell> = Vec::new();
    let mut i: usize = 0;
    while i < d.len()
        invariant
            0 <= i <= d@.len(),
            r@.len() == i,
            forall|j: int| 0 <= j < i ==> r@[j] == d@[j],
        decreases d@.len() - i,
    {
        r.push(d[i]);
        i += 1;
    }
    proof {
        assert(r@ =~= d@);
    }
    r
}

} // verus!
