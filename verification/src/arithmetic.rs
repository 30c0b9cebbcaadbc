use crate::gadgets::{pairwise_emitted, pairwise_forward, GadgetConfig};
use crate::layout::{gadget_val, AssignedCell, GadgetType, Layouter};
use crate::shape::{
    bc_compat, bc_shape, bc_src, broadcast_shapes, checked_shape_prod, lemma_bc_operand_dims,
    lemma_padded_shape_prod, pad_shape, padded, shape_prod, src_index,
};
use crate::tensor::Tensor;
use crate::Error;
use vstd::prelude::*;

verus! {

/// The selector the shared configuration assigns to a gadget kind.
pub open spec fn sel_of(config: GadgetConfig, op: GadgetType) -> usize {
    match op {
        GadgetType::AddPairs => config.sel_add,
        GadgetType::SubPairs => config.sel_sub,
        GadgetType::MulPairs => config.sel_mul,
    }
}

/// The flat sequence of input wire-pairs an elementwise operation reads:
/// for each position of the broadcast shape, in row-major order, the
/// broadcast-resolved wire of each operand. A repeated axis reuses the
/// same wire handle; no new wire is committed for repetitions.
pub open spec fn bc_pairs(a: Tensor, b: Tensor) -> Seq<(AssignedCell, AssignedCell)> {
    let t = bc_shape(a.shape@, b.shape@);
    Seq::new(
        shape_prod(t) as nat,
        |f: int| (a.data@[bc_src(t, a.shape@, f)], b.data@[bc_src(t, b.shape@, f)]),
    )
}

/// The elementwise adapter shared by every arithmetic layer. It
/// validates that the two operand shapes are broadcast-compatible,
/// resolves the broadcast into flat wire-pairs in row-major order over
/// the broadcast shape, has the gadget of kind `op` emit one constrained
/// output wire per pair, and returns the flat output together with the
/// broadcast shape for the caller to reshape. On any failure the build
/// is left untouched: no wire is committed, no constraint emitted.
pub fn arithmetic_forward(
    op: GadgetType,
    ly: &mut Layouter,
    tensors: &Vec<Tensor>,
    gadget_config: &GadgetConfig,
) -> (r: Result<(Vec<AssignedCell>, Vec<usize>), Error>)
    requires
        old(ly).wf(),
        forall|i: int|
            0 <= i < tensors@.len() ==> (#[trigger] tensors@[i]).wf() && tensors@[i].wires_ok(
                *old(ly),
            ),
    ensures
        final(ly).wf(),
        match r {
            Ok(out) => {
                &&& tensors@.len() == 2
                &&& bc_compat(tensors@[0].shape@, tensors@[1].shape@)
                &&& out.1@ == bc_shape(tensors@[0].shape@, tensors@[1].shape@)
                &&& out.0@.len() == shape_prod(out.1@)
                &&& pairwise_emitted(
                    *old(ly),
                    *final(ly),
                    bc_pairs(tensors@[0], tensors@[1]),
                    out.0@,
                    op,
                    sel_of(*gadget_config, op),
                )
                &&& forall|f: int|
                    0 <= f < out.0@.len() ==> (#[trigger] out.0@[f]).value.v as int == gadget_val(
                        op,
                        tensors@[0].data@[bc_src(out.1@, tensors@[0].shape@, f)].value.v as int,
                        tensors@[1].data@[bc_src(out.1@, tensors@[1].shape@, f)].value.v as int,
                    )
                &&& forall|f: int| 0 <= f < out.0@.len() ==> final(ly).wire_ok(#[trigger] out.0@[f])
            },
            Err(e) => {
                &&& *final(ly) == *old(ly)
                &&& (e == Error::ShapeMismatch || e == Error::SynthesisError)
                &&& ((e == Error::ShapeMismatch) <==> (tensors@.len() != 2 || !bc_compat(
                    tensors@[0].shape@,
                    tensors@[1].shape@,
                )))
            },
        },
        r.is_ok() <==> (tensors@.len() == 2 && bc_compat(tensors@[0].shape@, tensors@[1].shape@)
            && old(ly).cells@.len() + shape_prod(
            bc_shape(tensors@[0].shape@, tensors@[1].shape@),
        ) <= old(ly).cap),
{
    if tensors.len() != 2 {
        return Err(Error::ShapeMismatch);
    }
    let a = &tensors[0];
    let b = &tensors[1];
    let t = match broadcast_shapes(&a.shape, &b.shape) {
        Some(t) => t,
        None => {
            return Err(Error::ShapeMismatch);
        },
    };
    let total = match checked_shape_prod(&t) {
        Some(n) => n,
        None => {
            return Err(Error::SynthesisError);
        },
    };
    let ra = pad_shape(&a.shape, t.len());
    let rb = pad_shape(&b.shape, t.len());
    proof {
        assert(ra@ =~= padded(a.shape@, t@.len() as int));
        assert(rb@ =~= padded(b.shape@, t@.len() as int));
        lemma_bc_operand_dims(a.shape@, b.shape@);
        lemma_padded_shape_prod(a.shape@, t@.len() as int);
        lemma_padded_shape_prod(b.shape@, t@.len() as int);
        assert forall|j: int| 0 <= j < t@.len() implies (#[trigger] ra@[j] == t@[j] || ra@[j] == 1)
            && (rb@[j] == t@[j] || rb@[j] == 1) by {
            assert(t@[j] as int == crate::shape::bc_dim(a.shape@, b.shape@, j));
        }
    }
    let la = a.data.len();
    let lb = b.data.len();
    proof {
        assert(shape_prod(ra@) <= usize::MAX);
        assert(shape_prod(rb@) <= usize::MAX);
    }
    let mut pairs: Vec<(AssignedCell, AssignedCell)> = Vec::new();
    let mut f: usize = 0;
    while f < total
        invariant
            tensors@.len() == 2,
            *ly == *old(ly),
            old(ly).wf(),
            tensors@[0].wf(),
            tensors@[1].wf(),
            bc_compat(tensors@[0].shape@, tensors@[1].shape@),
            t@ == bc_shape(tensors@[0].shape@, tensors@[1].shape@),
            total as int == shape_prod(t@),
            ra@ == padded(tensors@[0].shape@, t@.len() as int),
            rb@ == padded(tensors@[1].shape@, t@.len() as int),
            ra@.len() == t@.len(),
            rb@.len() == t@.len(),
            forall|j: int| 0 <= j < t@.len() ==> #[trigger] ra@[j] == t@[j] || ra@[j] == 1,
            forall|j: int| 0 <= j < t@.len() ==> #[trigger] rb@[j] == t@[j] || rb@[j] == 1,
            shape_prod(ra@) == tensors@[0].data@.len(),
            shape_prod(rb@) == tensors@[1].data@.len(),
            shape_prod(ra@) <= usize::MAX,
            shape_prod(rb@) <= usize::MAX,
            0 <= f <= total,
            pairs@.len() == f,
            forall|g: int|
                0 <= g < f ==> #[trigger] pairs@[g] == (
                    tensors@[0].data@[bc_src(t@, tensors@[0].shape@, g)],
                    tensors@[1].data@[bc_src(t@, tensors@[1].shape@, g)],
                ),
            forall|g: int|
                0 <= g < f ==> 0 <= #[trigger] bc_src(t@, tensors@[0].shape@, g)
                    < tensors@[0].data@.len(),
            forall|g: int|
                0 <= g < f ==> 0 <= #[trigger] bc_src(t@, tensors@[1].shape@, g)
                    < tensors@[1].data@.len(),
        decreases total - f,
    {
        let a2 = &tensors[0];
        let b2 = &tensors[1];
        let ia = src_index(&t, &ra, f);
        let ib = src_index(&t, &rb, f);
        pairs.push((a2.data[ia], b2.data[ib]));
        f += 1;
    }
    proof {
        assert(pairs@ =~= bc_pairs(tensors@[0], tensors@[1]));
        assert forall|k: int| 0 <= k < pairs@.len() implies ly.wire_ok(#[trigger] pairs@[k].0)
            && ly.wire_ok(pairs@[k].1) by {
            assert(tensors@[0].wires_ok(*ly));
            assert(tensors@[1].wires_ok(*ly));
            assert(ly.wire_ok(tensors@[0].data@[bc_src(t@, tensors@[0].shape@, k)]));
            assert(ly.wire_ok(tensors@[1].data@[bc_src(t@, tensors@[1].shape@, k)]));
        }
    }
    let sel = match op {
        GadgetType::AddPairs => gadget_config.sel_add,
        GadgetType::SubPairs => gadget_config.sel_sub,
        GadgetType::MulPairs => gadget_config.sel_mul,
    };
    let outs = match pairwise_forward(op, sel, ly, &pairs) {
        Ok(o) => o,
        Err(e) => {
            return Err(e);
        },
    };
    proof {
        assert forall|f2: int| 0 <= f2 < outs@.len() implies ly.wire_ok(#[trigger] outs@[f2]) by {
        }
    }
    Ok((outs, t))
}

} // verus!
