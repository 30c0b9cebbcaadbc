//! Replays a build recorded by the verified engine through halo2's mock
//! prover: the honest witness must satisfy every emitted constraint, and
//! a tampered output wire must fail verification.

use halo2_proofs::circuit::{Layouter as H2Layouter, SimpleFloorPlanner, Value};
use halo2_proofs::dev::MockProver;
use halo2_proofs::pasta::Fp;
use halo2_proofs::plonk::{
    Advice, Circuit, Column, ConstraintSystem, Error as PlonkError, Expression, Selector,
};
use halo2_proofs::poly::Rotation;

use zkml::field::{FieldElem, FIELD_MODULUS};
use zkml::gadgets::{ConstraintSystemModel, GadgetConfig};
use zkml::layers::SubChip;
use zkml::layout::{Gate, Layouter};
use zkml::pool::ConstantPool;
use zkml::tensor::Tensor;

#[derive(Clone)]
struct ReplayConfig {
    lhs: Column<Advice>,
    rhs: Column<Advice>,
    out: Column<Advice>,
    master: Column<Advice>,
    wrap: Column<Advice>,
    sel_sub: Selector,
}

struct ReplayCircuit {
    cells: Vec<u64>,
    gates: Vec<Gate>,
    copies: Vec<(usize, usize)>,
}

impl ReplayCircuit {
    fn of_build(ly: &Layouter) -> ReplayCircuit {
        ReplayCircuit {
            cells: ly.cells.iter().map(|c| c.v).collect(),
            gates: ly.gates.clone(),
            copies: ly.copies.clone(),
        }
    }

}

impl Circuit<Fp> for ReplayCircuit {
    type Config = ReplayConfig;
    type FloorPlanner = SimpleFloorPlanner;

    fn without_witnesses(&self) -> Self {
        ReplayCircuit {
            cells: vec![0; self.cells.len()],
            gates: self.gates.clone(),
            copies: self.copies.clone(),
        }
    }

    fn configure(meta: &mut ConstraintSystem<Fp>) -> ReplayConfig {
        let lhs = meta.advice_column();
        let rhs = meta.advice_column();
        let out = meta.advice_column();
        let master = meta.advice_column();
        let wrap = meta.advice_column();
        meta.enable_equality(lhs);
        meta.enable_equality(rhs);
        meta.enable_equality(out);
        meta.enable_equality(master);
        let sel_sub = meta.selector();
        meta.create_gate("pairwise sub", |meta| {
            let s = meta.query_selector(sel_sub);
            let a = meta.query_advice(lhs, Rotation::cur());
            let b = meta.query_advice(rhs, Rotation::cur());
            let o = meta.query_advice(out, Rotation::cur());
            let k = meta.query_advice(wrap, Rotation::cur());
            vec![s * (o - a + b - k * Expression::Constant(Fp::from(FIELD_MODULUS)))]
        });
        ReplayConfig { lhs, rhs, out, master, wrap, sel_sub }
    }

    fn synthesize(
        &self,
        config: ReplayConfig,
        mut layouter: impl H2Layouter<Fp>,
    ) -> Result<(), PlonkError> {
        let masters = layouter.assign_region(
            || "committed cells",
            |mut region| {
                let mut cells = Vec::new();
                for (i, v) in self.cells.iter().enumerate() {
                    let ac = region.assign_advice(
                        || "cell",
                        config.master,
                        i,
                        || Value::known(Fp::from(*v)),
                    )?;
                    cells.push(ac.cell());
                }
                Ok(cells)
            },
        )?;
        for g in self.gates.iter() {
            let a_v = self.cells[g.lhs];
            let b_v = self.cells[g.rhs];
            let o_v = self.cells[g.out];
            let k_v = (o_v as u128 + b_v as u128 - a_v as u128) / FIELD_MODULUS as u128;
            layouter.assign_region(
                || "gate row",
                |mut region| {
                    config.sel_sub.enable(&mut region, 0)?;
                    let a =
                        region.assign_advice(|| "lhs", config.lhs, 0, || Value::known(Fp::from(a_v)))?;
                    let b =
                        region.assign_advice(|| "rhs", config.rhs, 0, || Value::known(Fp::from(b_v)))?;
                    let o =
                        region.assign_advice(|| "out", config.out, 0, || Value::known(Fp::from(o_v)))?;
                    region.assign_advice(
                        || "wrap",
                        config.wrap,
                        0,
                        || Value::known(Fp::from(k_v as u64)),
                    )?;
                    region.constrain_equal(a.cell(), masters[g.lhs])?;
                    region.constrain_equal(b.cell(), masters[g.rhs])?;
                    region.constrain_equal(o.cell(), masters[g.out])?;
                    Ok(())
                },
            )?;
        }
        layouter.assign_region(
            || "permutation constraints",
            |mut region| {
                for (x, y) in self.copies.iter() {
                    region.constrain_equal(masters[*x], masters[*y])?;
                }
                Ok(())
            },
        )?;
        Ok(())
    }
}

fn build_sub_circuit() -> ReplayCircuit {
    let mut cs = ConstraintSystemModel::new();
    let gcfg = GadgetConfig::configure(&mut cs);
    let pool = ConstantPool::new();
    let mut ly = Layouter::new(1000);
    let mut adata = Vec::new();
    for v in [5u64, 3, 9, 2] {
        adata.push(ly.assign(FieldElem::new(v)).unwrap());
    }
    let mut bdata = Vec::new();
    for _ in 0..4 {
        bdata.push(ly.assign(FieldElem::new(1)).unwrap());
    }
    let a = Tensor::new(vec![2, 2], adata).unwrap();
    let b = Tensor::new(vec![2, 2], bdata).unwrap();
    let cfg = SubChip::configure(vec![], vec![vec![2, 2], vec![2, 2]]).unwrap();
    let chip = SubChip::construct();
    let out = chip
        .forward(&mut ly, &cfg, &vec![a, b], &pool, &gcfg)
        .unwrap();
    assert_eq!(
        out[0].data.iter().map(|w| w.value.v).collect::<Vec<u64>>(),
        vec![4, 2, 8, 1]
    );
    ReplayCircuit::of_build(&ly)
}

#[test]
fn honest_build_satisfies_halo2() {
    let circuit = build_sub_circuit();
    let prover = MockProver::run(6, &circuit, vec![]).unwrap();
    assert!(prover.verify().is_ok());
}

#[test]
fn tampered_wire_fails_halo2_verification() {
    let mut circuit = build_sub_circuit();
    // forge the first result wire: 5 - 1 is 4, claim 5 instead
    let out_cell = circuit.gates[0].out;
    circuit.cells[out_cell] += 1;
    let prover = MockProver::run(6, &circuit, vec![]).unwrap();
    assert!(prover.verify().is_err());
}
