use crate::arithmetic::{arithmetic_forward, bc_pairs, sel_of};
use crate::field::{sub_val, FieldElem};
use crate::gadgets::{pairwise_emitted, ConstraintSystemModel, GadgetConfig, SubPairsChip};
use crate::layout::{gadget_val, AssignedCell, GadgetType, Layouter};
use crate::pool::ConstantPool;
use crate::shape::{
    bc_compat, bc_len, bc_shape, bc_src, broadcast_shapes, padded, padded_dim, shape_prod,
    shapes_equal, src_flat,
};
use crate::tensor::{copy_shape, copy_wires, Tensor};
use crate::Error;
use vstd::prelude::*;

verus! {

/// The identifier under which the shared zero constant is pooled.
pub const ZERO_CONST_ID: i64 = 0;

/// The closed set of layer type tags. Dispatch is by exhaustive match,
/// so the supported operations can be reasoned about exhaustively.
#[derive(Clone, Copy, PartialEq, Eq, Structural, Debug)]
pub enum LayerType {
    Add,
    Sub,
    Mul,
    Neg,
    Div,
}

/// The static, serializable description of one layer instance: its type
/// tag, its operation-specific integer parameters, and its declared
/// input and output shapes. Immutable once constructed; `configure`
/// always populates the shapes in full, since forward-time validation
/// depends on them.
#[derive(Debug)]
pub struct LayerConfig {
    pub layer_type: LayerType,
    pub layer_params: Vec<i64>,
    pub inp_shapes: Vec<Vec<usize>>,
    pub out_shapes: Vec<Vec<usize>>,
}

/// The constant-pool identifiers a layer of the given type references
/// during its forward pass.
pub open spec fn needed_const_ids(lt: LayerType) -> Set<i64> {
    match lt {
        LayerType::Neg => set![ZERO_CONST_ID as i64],
        _ => Set::empty(),
    }
}

/// Whether a binary elementwise record and its runtime operands agree:
/// two operands carrying the declared input shapes, broadcast-compatible,
/// and a single declared output shape equal to their broadcast.
pub open spec fn binary_cfg_ok(cfg: LayerConfig, tensors: Seq<Tensor>) -> bool {
    &&& tensors.len() == 2
    &&& cfg.inp_shapes@.len() == 2
    &&& tensors[0].shape@ == cfg.inp_shapes@[0]@
    &&& tensors[1].shape@ == cfg.inp_shapes@[1]@
    &&& bc_compat(tensors[0].shape@, tensors[1].shape@)
    &&& cfg.out_shapes@.len() == 1
    &&& cfg.out_shapes@[0]@ == bc_shape(tensors[0].shape@, tensors[1].shape@)
}

/// Whether a unary record and its runtime operand agree: one operand
/// carrying the declared input shape, and the declared output shape
/// equal to it.
pub open spec fn unary_cfg_ok(cfg: LayerConfig, tensors: Seq<Tensor>) -> bool {
    &&& tensors.len() == 1
    &&& cfg.inp_shapes@.len() == 1
    &&& tensors[0].shape@ == cfg.inp_shapes@[0]@
    &&& cfg.out_shapes@.len() == 1
    &&& cfg.out_shapes@[0]@ == tensors[0].shape@
}

/// Whether the build has room for one output cell per position of the
/// broadcast of the two operand shapes.
pub open spec fn elementwise_fits(pre: Layouter, tensors: Seq<Tensor>) -> bool {
    pre.cells@.len() + shape_prod(bc_shape(tensors[0].shape@, tensors[1].shape@)) <= pre.cap
}

/// What a successful binary elementwise forward pass leaves behind: one
/// well-formed output tensor of the broadcast shape whose entry at each
/// row-major position is the operation over the broadcast-resolved
/// operand entries, each output wire constrained by an emitted gate.
pub open spec fn elementwise_ok(
    op: GadgetType,
    sel: usize,
    pre: Layouter,
    post: Layouter,
    cfg: LayerConfig,
    tensors: Seq<Tensor>,
    outs: Seq<Tensor>,
) -> bool {
    &&& binary_cfg_ok(cfg, tensors)
    &&& outs.len() == 1
    &&& outs[0].shape@ == bc_shape(tensors[0].shape@, tensors[1].shape@)
    &&& outs[0].wf()
    &&& outs[0].wires_ok(post)
    &&& pairwise_emitted(pre, post, bc_pairs(tensors[0], tensors[1]), outs[0].data@, op, sel)
    &&& forall|f: int|
        0 <= f < outs[0].data@.len() ==> (#[trigger] outs[0].data@[f]).value.v as int == gadget_val(
            op,
            tensors[0].data@[bc_src(outs[0].shape@, tensors[0].shape@, f)].value.v as int,
            tensors[1].data@[bc_src(outs[0].shape@, tensors[1].shape@, f)].value.v as int,
        )
}

/// The full contract of a binary elementwise forward pass: on success,
/// `elementwise_ok`; on failure the build is untouched and the error
/// says exactly what went wrong; success exactly when the record and
/// operands agree and the build has room.
pub open spec fn binary_forward_post(
    op: GadgetType,
    sel: usize,
    pre: Layouter,
    post: Layouter,
    cfg: LayerConfig,
    tensors: Seq<Tensor>,
    r: Result<Vec<Tensor>, Error>,
) -> bool {
    &&& match r {
        Ok(outs) => elementwise_ok(op, sel, pre, post, cfg, tensors, outs@),
        Err(e) => {
            &&& post == pre
            &&& (e == Error::ShapeMismatch || e == Error::SynthesisError)
            &&& ((e == Error::ShapeMismatch) <==> !binary_cfg_ok(cfg, tensors))
        },
    }
    &&& (r is Ok <==> (binary_cfg_ok(cfg, tensors) && elementwise_fits(pre, tensors)))
}

/// The shared implementation layer above the gadgets (spec: the
/// Arithmetic adapter as a layer): validates operands against the
/// record, broadcasts, dispatches to the gadget of kind `op`, and
/// reshapes the flat result into the output tensor. Shape validation
/// happens in full before any wire is committed, so a rejected record
/// leaves no partial circuit mutation.
pub fn elementwise_forward(
    op: GadgetType,
    ly: &mut Layouter,
    cfg: &LayerConfig,
    tensors: &Vec<Tensor>,
    gadget_config: &GadgetConfig,
) -> (r: Result<Vec<Tensor>, Error>)
    requires
        old(ly).wf(),
        forall|i: int|
            0 <= i < tensors@.len() ==> (#[trigger] tensors@[i]).wf() && tensors@[i].wires_ok(
                *old(ly),
            ),
    ensures
        final(ly).wf(),
        binary_forward_post(
            op,
            sel_of(*gadget_config, op),
            *old(ly),
            *final(ly),
            *cfg,
            tensors@,
            r,
        ),
{
    if tensors.len() != 2 || cfg.inp_shapes.len() != 2 {
        return Err(Error::ShapeMismatch);
    }
    let t0 = &tensors[0];
    let t1 = &tensors[1];
    let s0 = &cfg.inp_shapes[0];
    let s1 = &cfg.inp_shapes[1];
    if !shapes_equal(&t0.shape, s0) || !shapes_equal(&t1.shape, s1) {
        return Err(Error::ShapeMismatch);
    }
    let bc = match broadcast_shapes(&t0.shape, &t1.shape) {
        Some(t) => t,
        None => {
            return Err(Error::ShapeMismatch);
        },
    };
    if cfg.out_shapes.len() != 1 {
        return Err(Error::ShapeMismatch);
    }
    let declared = &cfg.out_shapes[0];
    if !shapes_equal(&bc, declared) {
        return Err(Error::ShapeMismatch);
    }
    match arithmetic_forward(op, ly, tensors, gadget_config) {
        Ok(out) => {
            let (outs, oshape) = out;
            let out_tensor = Tensor { shape: oshape, data: outs };
            let mut rv: Vec<Tensor> = Vec::new();
            rv.push(out_tensor);
            Ok(rv)
        },
        Err(e) => Err(e),
    }
}

/// The record a binary elementwise `configure` produces: deterministic
/// in its arguments, with input and output shapes fully populated, and
/// a record whose operand shapes cannot broadcast rejected already at
/// description time.
pub open spec fn binary_configure_post(
    lt: LayerType,
    layer_params: Seq<i64>,
    inp_shapes: Seq<Vec<usize>>,
    r: Result<LayerConfig, Error>,
) -> bool {
    &&& match r {
        Ok(cfg) => {
            &&& inp_shapes.len() == 2
            &&& bc_compat(inp_shapes[0]@, inp_shapes[1]@)
            &&& cfg.layer_type == lt
            &&& cfg.layer_params@ == layer_params
            &&& cfg.inp_shapes@.len() == 2
            &&& cfg.inp_shapes@[0]@ == inp_shapes[0]@
            &&& cfg.inp_shapes@[1]@ == inp_shapes[1]@
            &&& cfg.out_shapes@.len() == 1
            &&& cfg.out_shapes@[0]@ == bc_shape(inp_shapes[0]@, inp_shapes[1]@)
        },
        Err(e) => {
            &&& e == Error::ShapeMismatch
            &&& (inp_shapes.len() != 2 || !bc_compat(inp_shapes[0]@, inp_shapes[1]@))
        },
    }
    &&& (r.is_ok() <==> (inp_shapes.len() == 2 && bc_compat(inp_shapes[0]@, inp_shapes[1]@)))
}

/// Builds the configuration record for one binary elementwise layer.
fn binary_configure(
    lt: LayerType,
    layer_params: Vec<i64>,
    inp_shapes: Vec<Vec<usize>>,
) -> (r: Result<LayerConfig, Error>)
    ensures
        binary_configure_post(lt, layer_params@, inp_shapes@, r),
{
    if inp_shapes.len() != 2 {
        return Err(Error::ShapeMismatch);
    }
    let s0 = &inp_shapes[0];
    let s1 = &inp_shapes[1];
    let bc = match broadcast_shapes(s0, s1) {
        Some(t) => t,
        None => {
            return Err(Error::ShapeMismatch);
        },
    };
    let mut out_shapes: Vec<Vec<usize>> = Vec::new();
    out_shapes.push(bc);
    Ok(LayerConfig { layer_type: lt, layer_params, inp_shapes, out_shapes })
}

/// The elementwise-subtract layer: a thin adapter over the shared
/// arithmetic implementation and the pairwise-subtract gadget.
pub struct SubChip {}

impl SubChip {
    /// Creates the layer instance; the layer carries no state of its own.
    pub fn construct() -> (r: SubChip) {
        SubChip {}
    }

    /// Builds the configuration record for one subtract layer.
    pub fn configure(layer_params: Vec<i64>, inp_shapes: Vec<Vec<usize>>) -> (r: Result<
        LayerConfig,
        Error,
    >)
        ensures
            binary_configure_post(LayerType::Sub, layer_params@, inp_shapes@, r),
    {
        binary_configure(LayerType::Sub, layer_params, inp_shapes)
    }

    /// Hands the flattened wire-pairs to the pairwise-subtract gadget.
    pub fn gadget_forward(
        &self,
        ly: &mut Layouter,
        vec_inputs: &Vec<(AssignedCell, AssignedCell)>,
        gadget_config: &GadgetConfig,
    ) -> (r: Result<Vec<AssignedCell>, Error>)
        requires
            old(ly).wf(),
            forall|k: int|
                0 <= k < vec_inputs@.len() ==> old(ly).wire_ok(#[trigger] vec_inputs@[k].0) && old(
                    ly,
                ).wire_ok(vec_inputs@[k].1),
        ensures
            final(ly).wf(),
            match r {
                Ok(outs) => {
                    &&& old(ly).cells@.len() + vec_inputs@.len() <= old(ly).cap
                    &&& pairwise_emitted(
                        *old(ly),
                        *final(ly),
                        vec_inputs@,
                        outs@,
                        GadgetType::SubPairs,
                        gadget_config.sel_sub,
                    )
                },
                Err(e) => {
                    &&& e == Error::SynthesisError
                    &&& old(ly).cells@.len() + vec_inputs@.len() > old(ly).cap
                    &&& *final(ly) == *old(ly)
                },
            },
    {
        let chip = SubPairsChip::construct(gadget_config);
        chip.forward(ly, vec_inputs)
    }

    /// The public layer contract: consume the input tensors and the two
    /// shared read-only collaborators, emit this layer's constraints,
    /// and return the output tensor of the broadcast shape.
    pub fn forward(
        &self,
        ly: &mut Layouter,
        cfg: &LayerConfig,
        tensors: &Vec<Tensor>,
        _constants: &ConstantPool,
        gadget_config: &GadgetConfig,
    ) -> (r: Result<Vec<Tensor>, Error>)
        requires
            old(ly).wf(),
            forall|i: int|
                0 <= i < tensors@.len() ==> (#[trigger] tensors@[i]).wf() && tensors@[i].wires_ok(
                    *old(ly),
                ),
        ensures
            final(ly).wf(),
            binary_forward_post(
                GadgetType::SubPairs,
                gadget_config.sel_sub,
                *old(ly),
                *final(ly),
                *cfg,
                tensors@,
                r,
            ),
    {
        elementwise_forward(GadgetType::SubPairs, ly, cfg, tensors, gadget_config)
    }
}

/// The elementwise-add layer.
pub struct AddChip {}

impl AddChip {
    /// Creates the layer instance; the layer carries no state of its own.
    pub fn construct() -> (r: AddChip) {
        AddChip {}
    }

    /// Builds the configuration record for one add layer.
    pub fn configure(layer_params: Vec<i64>, inp_shapes: Vec<Vec<usize>>) -> (r: Result<
        LayerConfig,
        Error,
    >)
        ensures
            binary_configure_post(LayerType::Add, layer_params@, inp_shapes@, r),
    {
        binary_configure(LayerType::Add, layer_params, inp_shapes)
    }

    /// The public layer contract for elementwise addition.
    pub fn forward(
        &self,
        ly: &mut Layouter,
        cfg: &LayerConfig,
        tensors: &Vec<Tensor>,
        _constants: &ConstantPool,
        gadget_config: &GadgetConfig,
    ) -> (r: Result<Vec<Tensor>, Error>)
        requires
            old(ly).wf(),
            forall|i: int|
                0 <= i < tensors@.len() ==> (#[trigger] tensors@[i]).wf() && tensors@[i].wires_ok(
                    *old(ly),
                ),
        ensures
            final(ly).wf(),
            binary_forward_post(
                GadgetType::AddPairs,
                gadget_config.sel_add,
                *old(ly),
                *final(ly),
                *cfg,
                tensors@,
                r,
            ),
    {
        elementwise_forward(GadgetType::AddPairs, ly, cfg, tensors, gadget_config)
    }
}

/// The elementwise-multiply layer.
pub struct MulChip {}

impl MulChip {
    /// Creates the layer instance; the layer carries no state of its own.
    pub fn construct() -> (r: MulChip) {
        MulChip {}
    }

    /// Builds the configuration record for one multiply layer.
    pub fn configure(layer_params: Vec<i64>, inp_shapes: Vec<Vec<usize>>) -> (r: Result<
        LayerConfig,
        Error,
    >)
        ensures
            binary_configure_post(LayerType::Mul, layer_params@, inp_shapes@, r),
    {
        binary_configure(LayerType::Mul, layer_params, inp_shapes)
    }

    /// The public layer contract for elementwise multiplication.
    pub fn forward(
        &self,
        ly: &mut Layouter,
        cfg: &LayerConfig,
        tensors: &Vec<Tensor>,
        _constants: &ConstantPool,
        gadget_config: &GadgetConfig,
    ) -> (r: Result<Vec<Tensor>, Error>)
        requires
            old(ly).wf(),
            forall|i: int|
                0 <= i < tensors@.len() ==> (#[trigger] tensors@[i]).wf() && tensors@[i].wires_ok(
                    *old(ly),
                ),
        ensures
            final(ly).wf(),
            binary_forward_post(
                GadgetType::MulPairs,
                gadget_config.sel_mul,
                *old(ly),
                *final(ly),
                *cfg,
                tensors@,
                r,
            ),
    {
        elementwise_forward(GadgetType::MulPairs, ly, cfg, tensors, gadget_config)
    }
}

/// The full contract of the negate layer's forward pass: on success one
/// output tensor of the input's shape whose entry at each position is
/// the pooled zero constant minus the input entry (negation as
/// subtraction from zero), each output wire bound by an emitted
/// subtraction gate over the shared zero wire and the input wire.
pub open spec fn neg_forward_post(
    pre: Layouter,
    post: Layouter,
    cfg: LayerConfig,
    tensors: Seq<Tensor>,
    pool: ConstantPool,
    sel: usize,
    r: Result<Vec<Tensor>, Error>,
) -> bool {
    &&& match r {
        Ok(outs) => {
            &&& unary_cfg_ok(cfg, tensors)
            &&& pool.view_map().contains_key(ZERO_CONST_ID)
            &&& outs.len() == 1
            &&& outs[0].shape@ == tensors[0].shape@
            &&& outs[0].wf()
            &&& outs[0].wires_ok(post)
            &&& pairwise_emitted(
                pre,
                post,
                Seq::new(
                    shape_prod(tensors[0].shape@) as nat,
                    |f: int| (pool.view_map()[ZERO_CONST_ID], tensors[0].data@[f]),
                ),
                outs[0].data@,
                GadgetType::SubPairs,
                sel,
            )
            &&& forall|f: int|
                0 <= f < outs[0].data@.len() ==> (#[trigger] outs[0].data@[f]).value.v as int
                    == sub_val(
                    pool.view_map()[ZERO_CONST_ID].value.v as int,
                    tensors[0].data@[f].value.v as int,
                )
        },
        Err(e) => {
            &&& post == pre
            &&& (e == Error::ShapeMismatch || e == Error::UnregisteredConstant
                || e == Error::SynthesisError)
            &&& ((e == Error::ShapeMismatch) <==> !unary_cfg_ok(cfg, tensors))
            &&& ((e == Error::UnregisteredConstant) <==> (unary_cfg_ok(cfg, tensors)
                && !pool.view_map().contains_key(ZERO_CONST_ID)))
        },
    }
    &&& (r.is_ok() <==> (unary_cfg_ok(cfg, tensors) && pool.view_map().contains_key(ZERO_CONST_ID)
        && pre.cells@.len() + shape_prod(tensors[0].shape@) <= pre.cap))
}

/// The elementwise-negate layer: negation as subtraction from the
/// pooled zero constant, the one layer in this catalog that references
/// the constant pool during synthesis.
pub struct NegChip {}

impl NegChip {
    /// Creates the layer instance; the layer carries no state of its own.
    pub fn construct() -> (r: NegChip) {
        NegChip {}
    }

    /// Builds the configuration record for one negate layer: the output
    /// shape equals the input shape.
    pub fn configure(layer_params: Vec<i64>, inp_shapes: Vec<Vec<usize>>) -> (r: Result<
        LayerConfig,
        Error,
    >)
        ensures
            match r {
                Ok(cfg) => {
                    &&& inp_shapes@.len() == 1
                    &&& cfg.layer_type == LayerType::Neg
                    &&& cfg.layer_params@ == layer_params@
                    &&& cfg.inp_shapes@.len() == 1
                    &&& cfg.inp_shapes@[0]@ == inp_shapes@[0]@
                    &&& cfg.out_shapes@.len() == 1
                    &&& cfg.out_shapes@[0]@ == inp_shapes@[0]@
                },
                Err(e) => {
                    &&& e == Error::ShapeMismatch
                    &&& inp_shapes@.len() != 1
                },
            },
            r.is_ok() <==> inp_shapes@.len() == 1,
    {
        if inp_shapes.len() != 1 {
            return Err(Error::ShapeMismatch);
        }
        let out0 = copy_shape(&inp_shapes[0]);
        let mut out_shapes: Vec<Vec<usize>> = Vec::new();
        out_shapes.push(out0);
        Ok(LayerConfig { layer_type: LayerType::Neg, layer_params, inp_shapes, out_shapes })
    }

    /// The public layer contract for elementwise negation.
    pub fn forward(
        &self,
        ly: &mut Layouter,
        cfg: &LayerConfig,
        tensors: &Vec<Tensor>,
        constants: &ConstantPool,
        gadget_config: &GadgetConfig,
    ) -> (r: Result<Vec<Tensor>, Error>)
        requires
            old(ly).wf(),
            forall|i: int|
                0 <= i < tensors@.len() ==> (#[trigger] tensors@[i]).wf() && tensors@[i].wires_ok(
                    *old(ly),
                ),
            constants.wf(),
            constants.wires_ok(*old(ly)),
        ensures
            final(ly).wf(),
            neg_forward_post(
                *old(ly),
                *final(ly),
                *cfg,
                tensors@,
                *constants,
                gadget_config.sel_sub,
                r,
            ),
    {
        if tensors.len() != 1 || cfg.inp_shapes.len() != 1 || cfg.out_shapes.len() != 1 {
            return Err(Error::ShapeMismatch);
        }
        let x = &tensors[0];
        let in0 = &cfg.inp_shapes[0];
        let out0 = &cfg.out_shapes[0];
        if !shapes_equal(&x.shape, in0) || !shapes_equal(&x.shape, out0) {
            return Err(Error::ShapeMismatch);
        }
        let zero_w = match constants.lookup(ZERO_CONST_ID) {
            Ok(w) => w,
            Err(e) => {
                return Err(e);
            },
        };
        proof {
            crate::pool::lemma_view_wire_ok(*constants, *old(ly), ZERO_CONST_ID);
        }
        let mut zdata: Vec<AssignedCell> = Vec::new();
        zdata.push(zero_w);
        let zshape: Vec<usize> = Vec::new();
        let zt = Tensor { shape: zshape, data: zdata };
        let x2 = Tensor { shape: copy_shape(&x.shape), data: copy_wires(&x.data) };
        let mut ins: Vec<Tensor> = Vec::new();
        ins.push(zt);
        ins.push(x2);
        let ghost xs = tensors@[0].shape@;
        proof {
            assert(ins@[0].shape@ =~= Seq::<usize>::empty());
            assert(shape_prod(ins@[0].shape@) == 1);
            assert(ins@[0].wf());
            assert(ins@[1].wf());
            assert forall|k: int| 0 <= k < ins@.len() implies (#[trigger] ins@[k]).wf()
                && ins@[k].wires_ok(*ly) by {
                if k == 0 {
                    assert(ins@[0].data@[0] == zero_w);
                } else {
                    assert(ins@[1].data@ == tensors@[0].data@);
                    assert(tensors@[0].wires_ok(*ly));
                }
            }
            assert(bc_len(ins@[0].shape@, xs) == xs.len() as int);
            assert forall|j: int| 0 <= j < xs.len() implies #[trigger] padded_dim(
                ins@[0].shape@,
                xs.len() as int,
                j,
            ) == 1 by {}
            assert(bc_compat(ins@[0].shape@, xs));
            assert(bc_shape(ins@[0].shape@, xs) =~= xs);
        }
        let rr = arithmetic_forward(GadgetType::SubPairs, ly, &ins, gadget_config);
        match rr {
            Ok(out) => {
                let (outs, oshape) = out;
                proof {
                    let t = oshape@;
                    let n = t.len() as int;
                    assert(t == xs);
                    assert(padded(ins@[0].shape@, n) =~= Seq::new(n as nat, |j: int| 1usize));
                    assert(padded(ins@[1].shape@, n) =~= xs);
                    assert forall|f: int| 0 <= f < shape_prod(t) implies #[trigger] bc_src(
                        t,
                        ins@[0].shape@,
                        f,
                    ) == 0 && bc_src(t, ins@[1].shape@, f) == f by {
                        crate::shape::lemma_src_flat_ones(t, padded(ins@[0].shape@, n), n, f);
                        assert(padded(ins@[1].shape@, n) == xs);
                        crate::shape::lemma_src_flat_identity(t, n, f);
                    }
                    assert(bc_pairs(ins@[0], ins@[1]) =~= Seq::new(
                        shape_prod(xs) as nat,
                        |f: int| (constants.view_map()[ZERO_CONST_ID], tensors@[0].data@[f]),
                    ));
                }
                let out_tensor = Tensor { shape: oshape, data: outs };
                let mut rv: Vec<Tensor> = Vec::new();
                rv.push(out_tensor);
                Ok(rv)
            },
            Err(e) => Err(e),
        }
    }
}

/// Dispatches one layer record to its implementation by exhaustive
/// match on the type tag, as the synthesis phase does for each record
/// in topological order. `Div` has no fully-constrained semantics in
/// this catalog (its divisor is not proven nonzero), so it fails closed
/// with `UnsupportedOperation` rather than emit an under-constrained
/// circuit. Whenever the record's needed constants are pooled — the
/// pre-flight condition — the dispatch never reports
/// `UnregisteredConstant`.
pub fn layer_forward(
    cfg: &LayerConfig,
    ly: &mut Layouter,
    tensors: &Vec<Tensor>,
    constants: &ConstantPool,
    gadget_config: &GadgetConfig,
) -> (r: Result<Vec<Tensor>, Error>)
    requires
        old(ly).wf(),
        forall|i: int|
            0 <= i < tensors@.len() ==> (#[trigger] tensors@[i]).wf() && tensors@[i].wires_ok(
                *old(ly),
            ),
        constants.wf(),
        constants.wires_ok(*old(ly)),
    ensures
        final(ly).wf(),
        match cfg.layer_type {
            LayerType::Add => binary_forward_post(
                GadgetType::AddPairs,
                gadget_config.sel_add,
                *old(ly),
                *final(ly),
                *cfg,
                tensors@,
                r,
            ),
            LayerType::Sub => binary_forward_post(
                GadgetType::SubPairs,
                gadget_config.sel_sub,
                *old(ly),
                *final(ly),
                *cfg,
                tensors@,
                r,
            ),
            LayerType::Mul => binary_forward_post(
                GadgetType::MulPairs,
                gadget_config.sel_mul,
                *old(ly),
                *final(ly),
                *cfg,
                tensors@,
                r,
            ),
            LayerType::Neg => neg_forward_post(
                *old(ly),
                *final(ly),
                *cfg,
                tensors@,
                *constants,
                gadget_config.sel_sub,
                r,
            ),
            LayerType::Div => r == Err::<Vec<Tensor>, Error>(Error::UnsupportedOperation)
                && *final(ly) == *old(ly),
        },
        needed_const_ids(cfg.layer_type).subset_of(constants.view_map().dom()) ==> !(r matches Err(
            Error::UnregisteredConstant,
        )),
{
    match cfg.layer_type {
        LayerType::Add => {
            let chip = AddChip::construct();
            chip.forward(ly, cfg, tensors, constants, gadget_config)
        },
        LayerType::Sub => {
            let chip = SubChip::construct();
            chip.forward(ly, cfg, tensors, constants, gadget_config)
        },
        LayerType::Mul => {
            let chip = MulChip::construct();
            chip.forward(ly, cfg, tensors, constants, gadget_config)
        },
        LayerType::Neg => {
            let chip = NegChip::construct();
            let r = chip.forward(ly, cfg, tensors, constants, gadget_config);
            proof {
                if needed_const_ids(LayerType::Neg).subset_of(constants.view_map().dom()) {
                    assert(needed_const_ids(LayerType::Neg).contains(ZERO_CONST_ID));
                    assert(constants.view_map().dom().contains(ZERO_CONST_ID));
                }
            }
            r
        },
        LayerType::Div => Err(Error::UnsupportedOperation),
    }
}

/// The pre-flight completeness check, run once the configuration phase
/// has populated the pool: every constant identifier any record's
/// forward pass will reference must already be pooled, so a missing
/// constant is rejected before synthesis begins, never discovered
/// mid-synthesis.
pub fn check_constants(records: &Vec<LayerConfig>, constants: &ConstantPool) -> (r: bool)
    ensures
        r <==> forall|i: int|
            0 <= i < records@.len() ==> needed_const_ids(
                (#[trigger] records@[i]).layer_type,
            ).subset_of(constants.view_map().dom()),
{
    let mut i: usize = 0;
    while i < records.len()
        invariant
            0 <= i <= records@.len(),
            forall|j: int|
                0 <= j < i ==> needed_const_ids((#[trigger] records@[j]).layer_type).subset_of(
                    constants.view_map().dom(),
                ),
        decreases records@.len() - i,
    {
        let rec = &records[i];
        match rec.layer_type {
            LayerType::Neg => {
                if !constants.contains(ZERO_CONST_ID) {
                    proof {
                        assert(needed_const_ids(records@[i as int].layer_type).contains(
                            ZERO_CONST_ID,
                        ));
                    }
                    return false;
                }
                proof {
                    assert forall|x: i64|
                        needed_const_ids(records@[i as int].layer_type).contains(
                            x,
                        ) implies constants.view_map().dom().contains(x) by {
                        assert(x == ZERO_CONST_ID);
                    }
                }
            },
            _ => {
                proof {
                    assert(needed_const_ids(records@[i as int].layer_type) =~= Set::<i64>::empty());
                }
            },
        }
        i += 1;
    }
    true
}

/// The configuration phase of one circuit build, as the description
/// phase runs it over the model's record list: allocates the shared
/// gadget resources exactly once, in a fixed order, commits every
/// constant the records will reference, and leaves the pool complete for
/// the pre-flight check. Fails only when the build has no room left for
/// a constant, in which case nothing is registered.
pub fn configure_circuit(
    cs: &mut ConstraintSystemModel,
    records: &Vec<LayerConfig>,
    ly: &mut Layouter,
    pool: &mut ConstantPool,
) -> (r: Result<GadgetConfig, Error>)
    requires
        old(cs).num_advice + 3 <= usize::MAX,
        old(cs).num_selectors + 3 <= usize::MAX,
        old(ly).wf(),
        old(pool).wf(),
        old(pool).wires_ok(*old(ly)),
    ensures
        final(ly).wf(),
        final(pool).wf(),
        final(pool).wires_ok(*final(ly)),
        final(cs).num_advice == old(cs).num_advice + 3,
        final(cs).num_selectors == old(cs).num_selectors + 3,
        match r {
            Ok(gcfg) => {
                &&& gcfg == crate::gadgets::spec_gadget_config(
                    old(cs).num_advice,
                    old(cs).num_selectors,
                )
                &&& forall|i: int|
                    0 <= i < records@.len() ==> needed_const_ids(
                        (#[trigger] records@[i]).layer_type,
                    ).subset_of(final(pool).view_map().dom())
            },
            Err(e) => {
                &&& e == Error::SynthesisError
                &&& old(ly).cells@.len() >= old(ly).cap
                &&& *final(ly) == *old(ly)
                &&& *final(pool) == *old(pool)
            },
        },
{
    let gcfg = GadgetConfig::configure(cs);
    let mut needs_zero = false;
    let mut i: usize = 0;
    while i < records.len()
        invariant
            0 <= i <= records@.len(),
            needs_zero ==> exists|j: int|
                0 <= j < records@.len() && (#[trigger] records@[j]).layer_type == LayerType::Neg,
            forall|j: int|
                0 <= j < i && (#[trigger] records@[j]).layer_type == LayerType::Neg ==> needs_zero,
        decreases records@.len() - i,
    {
        let rec = &records[i];
        match rec.layer_type {
            LayerType::Neg => {
                needs_zero = true;
            },
            _ => {},
        }
        i += 1;
    }
    if needs_zero && !pool.contains(ZERO_CONST_ID) {
        match pool.register_constant(ly, ZERO_CONST_ID, FieldElem::new(0)) {
            Ok(_) => {},
            Err(e) => {
                return Err(e);
            },
        }
    }
    proof {
        assert forall|k: int| 0 <= k < records@.len() implies needed_const_ids(
            (#[trigger] records@[k]).layer_type,
        ).subset_of(pool.view_map().dom()) by {
            match records@[k].layer_type {
                LayerType::Neg => {
                    assert(pool.view_map().dom().contains(ZERO_CONST_ID));
                    assert forall|x: i64|
                        needed_const_ids(records@[k].layer_type).contains(
                            x,
                        ) implies pool.view_map().dom().contains(x) by {
                        assert(x == ZERO_CONST_ID);
                    }
                },
                _ => {
                    assert(needed_const_ids(records@[k].layer_type) =~= Set::<i64>::empty());
                },
            }
        }
    }
    Ok(gcfg)
}

/// Constant-pool completeness: once the pre-flight check passes, every
/// identifier any record references is in the pool, so no layer
/// dispatched from the list reports `UnregisteredConstant`
/// mid-synthesis (see `layer_forward`'s final clause).
pub proof fn lemma_preflight_completeness(records: Seq<LayerConfig>, pool: ConstantPool, i: int)
    requires
        forall|j: int|
            0 <= j < records.len() ==> needed_const_ids(
                (#[trigger] records[j]).layer_type,
            ).subset_of(pool.view_map().dom()),
        0 <= i < records.len(),
    ensures
        needed_const_ids(records[i].layer_type).subset_of(pool.view_map().dom()),
{
}

} // verus!
