use vstd::arithmetic::div_mod::{lemma_mod_multiples_vanish, lemma_small_mod};
use vstd::prelude::*;

verus! {

/// The fixed prime characteristic of the circuit's scalar field.
pub const FIELD_MODULUS: u64 = 2147483647;

/// One element of the scalar field, kept reduced modulo `FIELD_MODULUS`.
/// Every tensor entry and every committed constant is such an element.
#[derive(Clone, Copy, PartialEq, Eq, Structural, Debug)]
pub struct FieldElem {
    pub v: u64,
}

/// A field element is well formed when it is fully reduced.
pub open spec fn fe_wf(a: FieldElem) -> bool {
    a.v < FIELD_MODULUS
}

/// Field addition on representatives: `(a + b) mod p`.
pub open spec fn add_val(a: int, b: int) -> int {
    (a + b) % (FIELD_MODULUS as int)
}

/// Field subtraction on representatives: `(a - b) mod p`, stated over
/// non-negative terms as `(a + p - b) mod p`.
pub open spec fn sub_val(a: int, b: int) -> int {
    (a + FIELD_MODULUS - b) % (FIELD_MODULUS as int)
}

/// Field multiplication on representatives: `(a * b) mod p`.
pub open spec fn mul_val(a: int, b: int) -> int {
    (a * b) % (FIELD_MODULUS as int)
}

impl FieldElem {
    /// Builds the field element representing `v`, reducing it modulo the
    /// field's characteristic.
    pub fn new(v: u64) -> (r: FieldElem)
        ensures
            fe_wf(r),
            r.v == v % FIELD_MODULUS,
    {
        FieldElem { v: v % FIELD_MODULUS }
    }
}

/// Reduced sum of two reduced field elements.
pub fn fe_add(a: FieldElem, b: FieldElem) -> (r: FieldElem)
    requires
        fe_wf(a),
        fe_wf(b),
    ensures
        fe_wf(r),
        r.v == add_val(a.v as int, b.v as int),
{
    let s: u64 = a.v + b.v;
    if s >= FIELD_MODULUS {
        proof {
            lemma_mod_multiples_vanish(1, s - FIELD_MODULUS, FIELD_MODULUS as int);
            lemma_small_mod((s - FIELD_MODULUS) as nat, FIELD_MODULUS as nat);
        }
        FieldElem { v: s - FIELD_MODULUS }
    } else {
        proof {
            lemma_small_mod(s as nat, FIELD_MODULUS as nat);
        }
        FieldElem { v: s }
    }
}

/// Reduced difference of two reduced field elements.
pub fn fe_sub(a: FieldElem, b: FieldElem) -> (r: FieldElem)
    requires
        fe_wf(a),
        fe_wf(b),
    ensures
        fe_wf(r),
        r.v == sub_val(a.v as int, b.v as int),
{
    if a.v >= b.v {
        proof {
            lemma_mod_multiples_vanish(1, a.v - b.v, FIELD_MODULUS as int);
            lemma_small_mod((a.v - b.v) as nat, FIELD_MODULUS as nat);
        }
        FieldElem { v: a.v - b.v }
    } else {
        proof {
            lemma_small_mod((a.v + FIELD_MODULUS - b.v) as nat, FIELD_MODULUS as nat);
        }
        FieldElem { v: a.v + (FIELD_MODULUS - b.v) }
    }
}

/// Reduced product of two reduced field elements.
pub fn fe_mul(a: FieldElem, b: FieldElem) -> (r: FieldElem)
    requires
        fe_wf(a),
        fe_wf(b),
    ensures
        fe_wf(r),
        r.v == mul_val(a.v as int, b.v as int),
{
    proof {
        assert((a.v as int) * (b.v as int) <= 2147483646int * 2147483646int) by (nonlinear_arith)
            requires
                a.v <= 2147483646,
                b.v <= 2147483646,
        ;
    }
    let p: u64 = a.v * b.v;
    FieldElem { v: p % FIELD_MODULUS }
}

} // verus!
