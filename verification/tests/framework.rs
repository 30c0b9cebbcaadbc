use zkml::arithmetic::arithmetic_forward;
use zkml::field::{fe_add, fe_mul, fe_sub, FieldElem, FIELD_MODULUS};
use zkml::layout::GadgetType;
use zkml::gadgets::{ConstraintSystemModel, GadgetConfig, SubPairsChip};
use zkml::layers::{
    check_constants, configure_circuit, layer_forward, AddChip, LayerConfig, LayerType, MulChip,
    NegChip, SubChip, ZERO_CONST_ID,
};
use zkml::layout::{AssignedCell, Layouter};
use zkml::pool::ConstantPool;
use zkml::tensor::Tensor;
use zkml::Error;

const P: u64 = FIELD_MODULUS;

fn setup() -> (Layouter, GadgetConfig, ConstantPool) {
    let mut cs = ConstraintSystemModel::new();
    let gcfg = GadgetConfig::configure(&mut cs);
    (Layouter::new(10000), gcfg, ConstantPool::new())
}

fn commit(ly: &mut Layouter, vals: &[u64]) -> Vec<AssignedCell> {
    let mut out = Vec::new();
    for v in vals {
        out.push(ly.assign(FieldElem::new(*v)).unwrap());
    }
    out
}

fn values_of(t: &Tensor) -> Vec<u64> {
    t.data.iter().map(|w| w.value.v).collect()
}

#[test]
fn field_ops_exact() {
    assert_eq!(FieldElem::new(P).v, 0);
    assert_eq!(FieldElem::new(P + 5).v, 5);
    assert_eq!(fe_add(FieldElem::new(P - 1), FieldElem::new(5)).v, 4);
    assert_eq!(fe_sub(FieldElem::new(3), FieldElem::new(5)).v, P - 2);
    assert_eq!(fe_sub(FieldElem::new(5), FieldElem::new(3)).v, 2);
    assert_eq!(fe_mul(FieldElem::new(100000), FieldElem::new(100000)).v, 1410065412);
    assert_eq!(fe_mul(FieldElem::new(0), FieldElem::new(12345)).v, 0);
}

#[test]
fn sub_two_by_two_scenario() {
    // [[5,3],[9,2]] - [[1,1],[1,1]] == [[4,2],[8,1]]
    let (mut ly, gcfg, pool) = setup();
    let adata = commit(&mut ly, &[5, 3, 9, 2]);
    let bdata = commit(&mut ly, &[1, 1, 1, 1]);
    let a = Tensor::new(vec![2, 2], adata).unwrap();
    let b = Tensor::new(vec![2, 2], bdata).unwrap();
    let cfg = SubChip::configure(vec![], vec![vec![2, 2], vec![2, 2]]).unwrap();
    let chip = SubChip::construct();
    let out = chip
        .forward(&mut ly, &cfg, &vec![a, b], &pool, &gcfg)
        .unwrap();
    assert_eq!(out.len(), 1);
    assert_eq!(out[0].shape, vec![2, 2]);
    assert_eq!(values_of(&out[0]), vec![4, 2, 8, 1]);
    // the four underlying gate constraints each hold out = a - b mod p
    assert_eq!(ly.gates.len(), 4);
    let asgn = ly.cells.clone();
    assert!(ly.constraints_hold_on(&asgn));
    for g in &ly.gates {
        let lhs = asgn[g.lhs].v;
        let rhs = asgn[g.rhs].v;
        let out_v = asgn[g.out].v;
        assert_eq!(out_v, (lhs + P - rhs) % P);
    }
}

#[test]
fn mismatched_shapes_fail_before_any_wire() {
    // [2,3] against [4,3] is rejected with ShapeMismatch and no partial
    // circuit mutation.
    assert_eq!(
        SubChip::configure(vec![], vec![vec![2, 3], vec![4, 3]]).unwrap_err(),
        Error::ShapeMismatch
    );
    let (mut ly, gcfg, pool) = setup();
    let adata = commit(&mut ly, &[1, 2, 3, 4, 5, 6]);
    let bdata = commit(&mut ly, &[1, 1, 1, 1, 1, 1, 1, 1, 1, 1, 1, 1]);
    let a = Tensor::new(vec![2, 3], adata).unwrap();
    let b = Tensor::new(vec![4, 3], bdata).unwrap();
    let cfg = LayerConfig {
        layer_type: LayerType::Sub,
        layer_params: vec![],
        inp_shapes: vec![vec![2, 3], vec![4, 3]],
        out_shapes: vec![vec![4, 3]],
    };
    let chip = SubChip::construct();
    let cells_before = ly.cells.len();
    let r = chip.forward(&mut ly, &cfg, &vec![a, b], &pool, &gcfg);
    assert_eq!(r.unwrap_err(), Error::ShapeMismatch);
    assert_eq!(ly.cells.len(), cells_before);
    assert_eq!(ly.gates.len(), 0);
    assert_eq!(ly.copies.len(), 0);
}

#[test]
fn broadcast_four_by_one_against_four_by_three() {
    // shapes [4,1] and [4,3] broadcast to [4,3] with
    // out[i][j] == a[i][0] - b[i][j]
    let (mut ly, gcfg, pool) = setup();
    let adata = commit(&mut ly, &[10, 20, 30, 40]);
    let bdata = commit(&mut ly, &[1, 2, 3, 4, 5, 6, 7, 8, 9, 10, 11, 12]);
    let a = Tensor::new(vec![4, 1], adata).unwrap();
    let b = Tensor::new(vec![4, 3], bdata).unwrap();
    let cfg = SubChip::configure(vec![], vec![vec![4, 1], vec![4, 3]]).unwrap();
    assert_eq!(cfg.out_shapes, vec![vec![4, 3]]);
    let chip = SubChip::construct();
    let out = chip
        .forward(&mut ly, &cfg, &vec![a, b], &pool, &gcfg)
        .unwrap();
    assert_eq!(out[0].shape, vec![4, 3]);
    assert_eq!(
        values_of(&out[0]),
        vec![9, 8, 7, 16, 15, 14, 23, 22, 21, 30, 29, 28]
    );
}

#[test]
fn arithmetic_forward_returns_flat_output_and_broadcast_shape() {
    let (mut ly, gcfg, _pool) = setup();
    let adata = commit(&mut ly, &[7, 9]);
    let bdata = commit(&mut ly, &[1, 2, 3, 4]);
    let a = Tensor::new(vec![2, 1], adata).unwrap();
    let b = Tensor::new(vec![2, 2], bdata).unwrap();
    let r = arithmetic_forward(GadgetType::SubPairs, &mut ly, &vec![a, b], &gcfg).unwrap();
    assert_eq!(r.1, vec![2, 2]);
    let flat: Vec<u64> = r.0.iter().map(|w| w.value.v).collect();
    assert_eq!(flat, vec![6, 5, 6, 5]);
    // a trailing-axis operand of lower rank repeats across leading axes
    let cdata = commit(&mut ly, &[10, 20, 30]);
    let ddata = commit(&mut ly, &[1, 2, 3, 4, 5, 6]);
    let c = Tensor::new(vec![3], cdata).unwrap();
    let d = Tensor::new(vec![2, 3], ddata).unwrap();
    let r2 = arithmetic_forward(GadgetType::AddPairs, &mut ly, &vec![c, d], &gcfg).unwrap();
    assert_eq!(r2.1, vec![2, 3]);
    let flat2: Vec<u64> = r2.0.iter().map(|w| w.value.v).collect();
    assert_eq!(flat2, vec![11, 22, 33, 14, 25, 36]);
}

#[test]
fn gadget_output_order_matches_input_order() {
    // output wire at index i corresponds exactly to input pair at index i
    let (mut ly, gcfg, _pool) = setup();
    let xs = commit(&mut ly, &[100, 200, 300, 400, 500]);
    let ys = commit(&mut ly, &[7, 8, 9, 10, 11]);
    let mut pairs = Vec::new();
    for i in 0..5 {
        pairs.push((xs[i], ys[i]));
    }
    let chip = SubPairsChip::construct(&gcfg);
    let base = ly.cells.len();
    let outs = chip.forward(&mut ly, &pairs).unwrap();
    assert_eq!(outs.len(), 5);
    for i in 0..5 {
        assert_eq!(outs[i].cell, base + i);
        assert_eq!(
            outs[i].value.v,
            (pairs[i].0.value.v + P - pairs[i].1.value.v) % P
        );
        let g = &ly.gates[i];
        assert_eq!(g.lhs, pairs[i].0.cell);
        assert_eq!(g.rhs, pairs[i].1.cell);
        assert_eq!(g.out, outs[i].cell);
    }
}

#[test]
fn tampered_output_fails_constraint_check() {
    // a forged result value fails the row's polynomial identity
    let (mut ly, gcfg, pool) = setup();
    let adata = commit(&mut ly, &[5]);
    let bdata = commit(&mut ly, &[3]);
    let a = Tensor::new(vec![1], adata).unwrap();
    let b = Tensor::new(vec![1], bdata).unwrap();
    let cfg = SubChip::configure(vec![], vec![vec![1], vec![1]]).unwrap();
    let chip = SubChip::construct();
    let out = chip
        .forward(&mut ly, &cfg, &vec![a, b], &pool, &gcfg)
        .unwrap();
    let out_cell = out[0].data[0].cell;
    let honest = ly.cells.clone();
    assert!(ly.constraints_hold_on(&honest));
    let mut forged = honest.clone();
    forged[out_cell] = FieldElem::new(7); // 5 - 3 is 2, not 7
    assert!(!ly.constraints_hold_on(&forged));
}

#[test]
fn resource_layouts_are_deterministic() {
    // two builds from identical record lists allocate identical layouts
    let mut cs1 = ConstraintSystemModel::new();
    let mut cs2 = ConstraintSystemModel::new();
    let g1 = GadgetConfig::configure(&mut cs1);
    let g2 = GadgetConfig::configure(&mut cs2);
    assert_eq!(g1, g2);
    assert_eq!(cs1.num_advice, cs2.num_advice);
    assert_eq!(cs1.num_selectors, cs2.num_selectors);
    let c1 = AddChip::configure(vec![1, 2], vec![vec![3, 4], vec![3, 4]]).unwrap();
    let c2 = AddChip::configure(vec![1, 2], vec![vec![3, 4], vec![3, 4]]).unwrap();
    assert_eq!(c1.layer_type, c2.layer_type);
    assert_eq!(c1.layer_params, c2.layer_params);
    assert_eq!(c1.inp_shapes, c2.inp_shapes);
    assert_eq!(c1.out_shapes, c2.out_shapes);
}

#[test]
fn preflight_rejects_missing_constant() {
    let (mut ly, gcfg, mut pool) = setup();
    let neg_cfg = NegChip::configure(vec![], vec![vec![2]]).unwrap();
    let records = vec![neg_cfg];
    // nothing pooled: the pre-flight check fails before synthesis
    assert!(!check_constants(&records, &pool));
    // and a forward pass without the constant is rejected with no mutation
    let xdata = commit(&mut ly, &[3, 10]);
    let x = Tensor::new(vec![2], xdata).unwrap();
    let cells_before = ly.cells.len();
    let chip = NegChip::construct();
    let r = chip.forward(&mut ly, &records[0], &vec![x], &pool, &gcfg);
    assert_eq!(r.unwrap_err(), Error::UnregisteredConstant);
    assert_eq!(ly.cells.len(), cells_before);
    // once the zero constant is pooled the check passes
    pool.register_constant(&mut ly, ZERO_CONST_ID, FieldElem::new(0))
        .unwrap();
    assert!(check_constants(&records, &pool));
}

#[test]
fn configuration_phase_pools_needed_constants() {
    let mut cs = ConstraintSystemModel::new();
    let mut ly = Layouter::new(100);
    let mut pool = ConstantPool::new();
    let neg_cfg = NegChip::configure(vec![], vec![vec![2]]).unwrap();
    let records = vec![neg_cfg];
    let gcfg = configure_circuit(&mut cs, &records, &mut ly, &mut pool).unwrap();
    assert!(pool.contains(ZERO_CONST_ID));
    assert!(check_constants(&records, &pool));
    // synthesis dispatched from the checked list cannot miss a constant
    let xdata = commit(&mut ly, &[5, 7]);
    let x = Tensor::new(vec![2], xdata).unwrap();
    let out = layer_forward(&records[0], &mut ly, &vec![x], &pool, &gcfg).unwrap();
    assert_eq!(values_of(&out[0]), vec![P - 5, P - 7]);
    assert!(ly.constraints_hold_on(&ly.cells.clone()));
}

#[test]
fn negation_as_subtraction_from_zero() {
    let (mut ly, gcfg, mut pool) = setup();
    pool.register_constant(&mut ly, ZERO_CONST_ID, FieldElem::new(0))
        .unwrap();
    let xdata = commit(&mut ly, &[3, 0, P - 1]);
    let x = Tensor::new(vec![3], xdata).unwrap();
    let cfg = NegChip::configure(vec![], vec![vec![3]]).unwrap();
    let chip = NegChip::construct();
    let out = chip
        .forward(&mut ly, &cfg, &vec![x], &pool, &gcfg)
        .unwrap();
    assert_eq!(out[0].shape, vec![3]);
    assert_eq!(values_of(&out[0]), vec![P - 3, 0, 1]);
    assert!(ly.constraints_hold_on(&ly.cells.clone()));
}

#[test]
fn division_fails_closed() {
    let (mut ly, gcfg, pool) = setup();
    let adata = commit(&mut ly, &[4]);
    let bdata = commit(&mut ly, &[2]);
    let a = Tensor::new(vec![1], adata).unwrap();
    let b = Tensor::new(vec![1], bdata).unwrap();
    let cfg = LayerConfig {
        layer_type: LayerType::Div,
        layer_params: vec![],
        inp_shapes: vec![vec![1], vec![1]],
        out_shapes: vec![vec![1]],
    };
    let r = layer_forward(&cfg, &mut ly, &vec![a, b], &pool, &gcfg);
    assert_eq!(r.unwrap_err(), Error::UnsupportedOperation);
}

#[test]
fn capacity_exhaustion_is_synthesis_error() {
    let mut cs = ConstraintSystemModel::new();
    let gcfg = GadgetConfig::configure(&mut cs);
    let pool = ConstantPool::new();
    let mut ly = Layouter::new(9); // room for the 8 inputs, not 4 outputs
    let adata = commit(&mut ly, &[5, 3, 9, 2]);
    let bdata = commit(&mut ly, &[1, 1, 1, 1]);
    let a = Tensor::new(vec![2, 2], adata).unwrap();
    let b = Tensor::new(vec![2, 2], bdata).unwrap();
    let cfg = SubChip::configure(vec![], vec![vec![2, 2], vec![2, 2]]).unwrap();
    let chip = SubChip::construct();
    let cells_before = ly.cells.len();
    let r = chip.forward(&mut ly, &cfg, &vec![a, b], &pool, &gcfg);
    assert_eq!(r.unwrap_err(), Error::SynthesisError);
    assert_eq!(ly.cells.len(), cells_before);
    assert_eq!(ly.gates.len(), 0);
}

#[test]
fn scalar_broadcasts_against_matrix() {
    let (mut ly, gcfg, pool) = setup();
    let sdata = commit(&mut ly, &[100]);
    let mdata = commit(&mut ly, &[1, 2, 3, 4]);
    let s = Tensor::new(vec![], sdata).unwrap();
    let m = Tensor::new(vec![2, 2], mdata).unwrap();
    let cfg = SubChip::configure(vec![], vec![vec![], vec![2, 2]]).unwrap();
    assert_eq!(cfg.out_shapes, vec![vec![2, 2]]);
    let chip = SubChip::construct();
    let out = chip
        .forward(&mut ly, &cfg, &vec![s, m], &pool, &gcfg)
        .unwrap();
    assert_eq!(out[0].shape, vec![2, 2]);
    assert_eq!(values_of(&out[0]), vec![99, 98, 97, 96]);
}

#[test]
fn zero_size_axis_yields_empty_output() {
    let (mut ly, gcfg, pool) = setup();
    let a = Tensor::new(vec![2, 0], vec![]).unwrap();
    let bdata = commit(&mut ly, &[1, 2]);
    let b = Tensor::new(vec![2, 1], bdata).unwrap();
    let cfg = MulChip::configure(vec![], vec![vec![2, 0], vec![2, 1]]).unwrap();
    assert_eq!(cfg.out_shapes, vec![vec![2, 0]]);
    let chip = MulChip::construct();
    let out = chip
        .forward(&mut ly, &cfg, &vec![a, b], &pool, &gcfg)
        .unwrap();
    assert_eq!(out[0].shape, vec![2, 0]);
    assert_eq!(out[0].data.len(), 0);
    assert_eq!(ly.gates.len(), 0);
}

#[test]
fn add_and_mul_layers_compute_elementwise() {
    let (mut ly, gcfg, pool) = setup();
    let adata = commit(&mut ly, &[1, 2, 3]);
    let bdata = commit(&mut ly, &[10, 20, P - 1]);
    let a = Tensor::new(vec![3], adata).unwrap();
    let b = Tensor::new(vec![3], bdata).unwrap();
    let cfg = AddChip::configure(vec![], vec![vec![3], vec![3]]).unwrap();
    let chip = AddChip::construct();
    let out = chip
        .forward(&mut ly, &cfg, &vec![a, b], &pool, &gcfg)
        .unwrap();
    assert_eq!(values_of(&out[0]), vec![11, 22, 2]);

    let cdata = commit(&mut ly, &[6, 7, 8]);
    let ddata = commit(&mut ly, &[2, 3, 0]);
    let c = Tensor::new(vec![3], cdata).unwrap();
    let d = Tensor::new(vec![3], ddata).unwrap();
    let mcfg = MulChip::configure(vec![], vec![vec![3], vec![3]]).unwrap();
    let mchip = MulChip::construct();
    let mout = mchip
        .forward(&mut ly, &mcfg, &vec![c, d], &pool, &gcfg)
        .unwrap();
    assert_eq!(values_of(&mout[0]), vec![12, 21, 0]);
    assert!(ly.constraints_hold_on(&ly.cells.clone()));
}

#[test]
fn layer_dispatch_matches_chips() {
    let (mut ly, gcfg, pool) = setup();
    let adata = commit(&mut ly, &[9, 9]);
    let bdata = commit(&mut ly, &[4, 5]);
    let a = Tensor::new(vec![2], adata).unwrap();
    let b = Tensor::new(vec![2], bdata).unwrap();
    let cfg = SubChip::configure(vec![], vec![vec![2], vec![2]]).unwrap();
    let out = layer_forward(&cfg, &mut ly, &vec![a, b], &pool, &gcfg).unwrap();
    assert_eq!(values_of(&out[0]), vec![5, 4]);
}

#[test]
fn pool_registration_and_lookup() {
    let mut ly = Layouter::new(10);
    let mut pool = ConstantPool::new();
    assert!(!pool.contains(7));
    assert_eq!(pool.lookup(7).unwrap_err(), Error::UnregisteredConstant);
    let w = pool
        .register_constant(&mut ly, 7, FieldElem::new(42))
        .unwrap();
    assert!(pool.contains(7));
    let got = pool.lookup(7).unwrap();
    assert_eq!(got.cell, w.cell);
    assert_eq!(got.value.v, 42);
    assert!(!pool.contains(8));
}

#[test]
fn copy_constraint_checking() {
    let mut ly = Layouter::new(10);
    let w1 = ly.assign(FieldElem::new(5)).unwrap();
    let w2 = ly.assign(FieldElem::new(5)).unwrap();
    ly.constrain_equal(&w1, &w2);
    let honest = ly.cells.clone();
    assert!(ly.constraints_hold_on(&honest));
    let mut forged = honest.clone();
    forged[w2.cell] = FieldElem::new(6);
    assert!(!ly.constraints_hold_on(&forged));
}

#[test]
fn tensor_backing_must_match_shape() {
    let mut ly = Layouter::new(10);
    let data = commit(&mut ly, &[1, 2, 3, 4, 5]);
    assert_eq!(
        Tensor::new(vec![2, 3], data).unwrap_err(),
        Error::ShapeMismatch
    );
}

#[test]
fn gadget_forward_layer_api() {
    let (mut ly, gcfg, _pool) = setup();
    let xs = commit(&mut ly, &[8, 6]);
    let ys = commit(&mut ly, &[3, 6]);
    let pairs = vec![(xs[0], ys[0]), (xs[1], ys[1])];
    let chip = SubChip::construct();
    let outs = chip.gadget_forward(&mut ly, &pairs, &gcfg).unwrap();
    assert_eq!(outs.len(), 2);
    assert_eq!(outs[0].value.v, 5);
    assert_eq!(outs[1].value.v, 0);
}
