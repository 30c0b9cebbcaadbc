use crate::field::{fe_add, fe_mul, fe_sub, fe_wf, FieldElem};
use crate::layout::{
    gadget_val, gate_holds, gates_hold, lemma_constraints_preserved_on_extension, AssignedCell,
    Gate, GadgetType, Layouter,
};
use crate::Error;
use vstd::prelude::*;

verus! {

/// The constraint-system collaborator at its boundary: running counters
/// of the physical columns and selectors allocated so far. Each resource
/// is allocated exactly once, centrally, during the configuration phase.
pub struct ConstraintSystemModel {
    pub num_advice: usize,
    pub num_selectors: usize,
}

impl ConstraintSystemModel {
    /// A fresh constraint system with nothing allocated.
    pub fn new() -> (r: ConstraintSystemModel)
        ensures
            r.num_advice == 0,
            r.num_selectors == 0,
    {
        ConstraintSystemModel { num_advice: 0, num_selectors: 0 }
    }

    /// Allocates the next advice column and returns its index.
    pub fn advice_column(&mut self) -> (r: usize)
        requires
            old(self).num_advice < usize::MAX,
        ensures
            r == old(self).num_advice,
            final(self).num_advice == old(self).num_advice + 1,
            final(self).num_selectors == old(self).num_selectors,
    {
        let c = self.num_advice;
        self.num_advice += 1;
        c
    }

    /// Allocates the next selector and returns its index.
    pub fn selector(&mut self) -> (r: usize)
        requires
            old(self).num_selectors < usize::MAX,
        ensures
            r == old(self).num_selectors,
            final(self).num_selectors == old(self).num_selectors + 1,
            final(self).num_advice == old(self).num_advice,
    {
        let s = self.num_selectors;
        self.num_selectors += 1;
        s
    }
}

/// The shared resource table: the three advice columns every pairwise
/// gadget reads and writes, and one selector per gadget kind. Allocated
/// exactly once when the circuit is assembled and shared read-only by
/// every gadget and layer for the rest of the build, so the circuit size
/// is fixed no matter how many times a gadget is invoked.
#[derive(Clone, Copy, PartialEq, Eq, Structural, Debug)]
pub struct GadgetConfig {
    pub col_lhs: usize,
    pub col_rhs: usize,
    pub col_out: usize,
    pub sel_add: usize,
    pub sel_sub: usize,
    pub sel_mul: usize,
}

/// The resource layout `GadgetConfig::configure` produces from a
/// constraint system whose counters stand at `num_advice` and
/// `num_selectors`: a fixed allocation order.
pub open spec fn spec_gadget_config(num_advice: usize, num_selectors: usize) -> GadgetConfig {
    GadgetConfig {
        col_lhs: num_advice,
        col_rhs: (num_advice + 1) as usize,
        col_out: (num_advice + 2) as usize,
        sel_add: num_selectors,
        sel_sub: (num_selectors + 1) as usize,
        sel_mul: (num_selectors + 2) as usize,
    }
}

impl GadgetConfig {
    /// Allocates the shared columns and selectors, in a fixed order, from
    /// the constraint-system collaborator. Called once per circuit build.
    pub fn configure(cs: &mut ConstraintSystemModel) -> (r: GadgetConfig)
        requires
            old(cs).num_advice + 3 <= usize::MAX,
            old(cs).num_selectors + 3 <= usize::MAX,
        ensures
            r == spec_gadget_config(old(cs).num_advice, old(cs).num_selectors),
            final(cs).num_advice == old(cs).num_advice + 3,
            final(cs).num_selectors == old(cs).num_selectors + 3,
    {
        let col_lhs = cs.advice_column();
        let col_rhs = cs.advice_column();
        let col_out = cs.advice_column();
        let sel_add = cs.selector();
        let sel_sub = cs.selector();
        let sel_mul = cs.selector();
        GadgetConfig { col_lhs, col_rhs, col_out, sel_add, sel_sub, sel_mul }
    }
}

/// Resource determinism: the column/selector layout is a function of the
/// allocation counters alone. In particular, two circuit builds that walk
/// identical layer configuration record lists from fresh constraint
/// systems allocate identical layouts (same count, same order), so prover
/// and verifier agree on the constraint system.
pub proof fn lemma_resource_determinism(
    advice1: usize,
    selectors1: usize,
    advice2: usize,
    selectors2: usize,
)
    requires
        advice1 == advice2,
        selectors1 == selectors2,
    ensures
        spec_gadget_config(advice1, selectors1) == spec_gadget_config(advice2, selectors2),
{
}

/// What a pairwise gadget's `forward` leaves behind: one fresh output
/// cell per input pair, in input order, and one gate per pair binding
/// that output cell to the operation over the pair's two input cells.
/// Nothing else is touched.
pub open spec fn pairwise_emitted(
    pre: Layouter,
    post: Layouter,
    pairs: Seq<(AssignedCell, AssignedCell)>,
    outs: Seq<AssignedCell>,
    op: GadgetType,
    sel: usize,
) -> bool {
    let base = pre.cells@.len() as int;
    let gbase = pre.gates@.len() as int;
    &&& outs.len() == pairs.len()
    &&& post.cap == pre.cap
    &&& post.cells@.len() == base + pairs.len()
    &&& (forall|j: int| 0 <= j < base ==> post.cells@[j] == pre.cells@[j])
    &&& post.copies@ == pre.copies@
    &&& post.gates@.len() == gbase + pairs.len()
    &&& (forall|j: int| 0 <= j < gbase ==> post.gates@[j] == pre.gates@[j])
    &&& (forall|i: int|
        0 <= i < pairs.len() ==> {
            &&& (#[trigger] post.gates@[gbase + i]).op == op
            &&& post.gates@[gbase + i].selector == sel
            &&& post.gates@[gbase + i].lhs == pairs[i].0.cell
            &&& post.gates@[gbase + i].rhs == pairs[i].1.cell
            &&& post.gates@[gbase + i].out as int == base + i
        })
    &&& (forall|i: int|
        0 <= i < pairs.len() ==> {
            &&& (#[trigger] outs[i]).cell as int == base + i
            &&& outs[i].value.v as int == gadget_val(
                op,
                pairs[i].0.value.v as int,
                pairs[i].1.value.v as int,
            )
            &&& post.cells@[base + i] == outs[i].value
        })
}

/// The shared emission core of every pairwise gadget. For each pair
/// `(a, b)`, in order, it commits the computed value to a fresh cell and
/// turns on its selector row, which constrains the fresh cell to equal
/// the operation of the pair's two cells. Index `i` of the result
/// corresponds exactly to input pair `i`.
/// Fails with `SynthesisError`, leaving the build untouched, exactly when
/// the remaining cell capacity cannot hold one output cell per pair.
pub fn pairwise_forward(
    op: GadgetType,
    selector: usize,
    ly: &mut Layouter,
    pairs: &Vec<(AssignedCell, AssignedCell)>,
) -> (r: Result<Vec<AssignedCell>, Error>)
    requires
        old(ly).wf(),
        forall|k: int|
            0 <= k < pairs@.len() ==> old(ly).wire_ok(#[trigger] pairs@[k].0) && old(ly).wire_ok(
                pairs@[k].1,
            ),
    ensures
        final(ly).wf(),
        match r {
            Ok(outs) => {
                &&& old(ly).cells@.len() + pairs@.len() <= old(ly).cap
                &&& pairwise_emitted(*old(ly), *final(ly), pairs@, outs@, op, selector)
                &&& forall|i: int|
                    0 <= i < outs@.len() ==> final(ly).wire_ok(#[trigger] outs@[i])
            },
            Err(e) => {
                &&& e == Error::SynthesisError
                &&& old(ly).cells@.len() + pairs@.len() > old(ly).cap
                &&& *final(ly) == *old(ly)
            },
        },
{
    let n = pairs.len();
    if ly.cap - ly.cells.len() < n {
        return Err(Error::SynthesisError);
    }
    let base = ly.cells.len();
    let ghost gbase = ly.gates@.len() as int;
    let mut outs: Vec<AssignedCell> = Vec::new();
    let mut i: usize = 0;
    while i < n
        invariant
            n == pairs@.len(),
            0 <= i <= n,
            outs@.len() == i,
            ly.wf(),
            ly.cap == old(ly).cap,
            base == old(ly).cells@.len(),
            base + n <= ly.cap,
            ly.cells@.len() == base + i,
            forall|j: int| 0 <= j < base ==> ly.cells@[j] == old(ly).cells@[j],
            ly.copies@ == old(ly).copies@,
            gbase == old(ly).gates@.len(),
            ly.gates@.len() == gbase + i,
            forall|j: int| 0 <= j < gbase ==> ly.gates@[j] == old(ly).gates@[j],
            forall|k: int|
                0 <= k < pairs@.len() ==> ly.wire_ok(#[trigger] pairs@[k].0) && ly.wire_ok(
                    pairs@[k].1,
                ),
            forall|j: int|
                0 <= j < i ==> {
                    &&& (#[trigger] ly.gates@[gbase + j]).op == op
                    &&& ly.gates@[gbase + j].selector == selector
                    &&& ly.gates@[gbase + j].lhs == pairs@[j].0.cell
                    &&& ly.gates@[gbase + j].rhs == pairs@[j].1.cell
                    &&& ly.gates@[gbase + j].out as int == base + j
                },
            forall|j: int|
                0 <= j < i ==> {
                    &&& (#[trigger] outs@[j]).cell as int == base + j
                    &&& outs@[j].value.v as int == gadget_val(
                        op,
                        pairs@[j].0.value.v as int,
                        pairs@[j].1.value.v as int,
                    )
                    &&& ly.cells@[base + j] == outs@[j].value
                },
        decreases n - i,
    {
        let p = pairs[i];
        let a = p.0;
        let b = p.1;
        proof {
            assert(ly.wire_ok(pairs@[i as int].0));
            assert(ly.wire_ok(pairs@[i as int].1));
            assert(fe_wf(a.value));
            assert(fe_wf(b.value));
        }
        let v = match op {
            GadgetType::AddPairs => fe_add(a.value, b.value),
            GadgetType::SubPairs => fe_sub(a.value, b.value),
            GadgetType::MulPairs => fe_mul(a.value, b.value),
        };
        let ghost prev = *ly;
        let cell = ly.cells.len();
        let w = AssignedCell { cell, value: v };
        ly.cells.push(v);
        let g = Gate { op, selector, lhs: a.cell, rhs: b.cell, out: cell };
        ly.gates.push(g);
        proof {
            lemma_constraints_preserved_on_extension(
                prev.gates@,
                prev.copies@,
                prev.cells@,
                ly.cells@,
            );
            assert(ly.cells@[a.cell as int] == a.value);
            assert(ly.cells@[b.cell as int] == b.value);
            assert(gate_holds(g, ly.cells@));
            assert forall|j: int| 0 <= j < ly.gates@.len() implies gate_holds(
                #[trigger] ly.gates@[j],
                ly.cells@,
            ) by {
                if j < prev.gates@.len() {
                    assert(ly.gates@[j] == prev.gates@[j]);
                    assert(gate_holds(prev.gates@[j], ly.cells@));
                }
            }
        }
        outs.push(w);
        i += 1;
    }
    Ok(outs)
}

/// Soundness of the pairwise gadget: for any assignment the verifier
/// accepts against the constraints recorded by a `forward` call, the
/// output wire at index `i` carries exactly the operation's value over
/// the committed values of input pair `i`; an assignment in which that
/// output cell is mismatched violates the emitted gate and is rejected.
pub proof fn lemma_pairwise_soundness(
    pre: Layouter,
    post: Layouter,
    pairs: Seq<(AssignedCell, AssignedCell)>,
    outs: Seq<AssignedCell>,
    op: GadgetType,
    sel: usize,
    i: int,
    asgn: Seq<FieldElem>,
)
    requires
        pairwise_emitted(pre, post, pairs, outs, op, sel),
        0 <= i < pairs.len(),
    ensures
        gates_hold(post.gates@, asgn) ==> {
            &&& outs[i].cell < asgn.len()
            &&& pairs[i].0.cell < asgn.len()
            &&& pairs[i].1.cell < asgn.len()
            &&& asgn[outs[i].cell as int].v as int == gadget_val(
                op,
                asgn[pairs[i].0.cell as int].v as int,
                asgn[pairs[i].1.cell as int].v as int,
            )
        },
        (outs[i].cell < asgn.len() && pairs[i].0.cell < asgn.len() && pairs[i].1.cell < asgn.len()
            && asgn[outs[i].cell as int].v as int != gadget_val(
            op,
            asgn[pairs[i].0.cell as int].v as int,
            asgn[pairs[i].1.cell as int].v as int,
        )) ==> !gates_hold(post.gates@, asgn),
{
    let g = post.gates@[pre.gates@.len() + i];
    if gates_hold(post.gates@, asgn) {
        assert(gate_holds(g, asgn));
    }
    if outs[i].cell < asgn.len() && pairs[i].0.cell < asgn.len() && pairs[i].1.cell < asgn.len()
        && asgn[outs[i].cell as int].v as int != gadget_val(
        op,
        asgn[pairs[i].0.cell as int].v as int,
        asgn[pairs[i].1.cell as int].v as int,
    ) {
        if gates_hold(post.gates@, asgn) {
            assert(gate_holds(g, asgn));
        }
    }
}

/// The pairwise-subtract chip: for each committed pair `(a, b)` it emits
/// a constrained output wire carrying `a - b`.
pub struct SubPairsChip {
    pub selector: usize,
}

impl SubPairsChip {
    /// Binds to the pre-allocated shared selector; allocates no physical
    /// resource itself.
    pub fn construct(gadget_config: &GadgetConfig) -> (r: SubPairsChip)
        ensures
            r.selector == gadget_config.sel_sub,
    {
        SubPairsChip { selector: gadget_config.sel_sub }
    }

    /// Emits one subtraction row per input pair; output index `i`
    /// corresponds exactly to input pair `i`.
    pub fn forward(
        &self,
        ly: &mut Layouter,
        pairs: &Vec<(AssignedCell, AssignedCell)>,
    ) -> (r: Result<Vec<AssignedCell>, Error>)
        requires
            old(ly).wf(),
            forall|k: int|
                0 <= k < pairs@.len() ==> old(ly).wire_ok(#[trigger] pairs@[k].0) && old(
                    ly,
                ).wire_ok(pairs@[k].1),
        ensures
            final(ly).wf(),
            match r {
                Ok(outs) => {
                    &&& old(ly).cells@.len() + pairs@.len() <= old(ly).cap
                    &&& pairwise_emitted(
                        *old(ly),
                        *final(ly),
                        pairs@,
                        outs@,
                        GadgetType::SubPairs,
                        self.selector,
                    )
                    &&& forall|i: int|
                        0 <= i < outs@.len() ==> final(ly).wire_ok(#[trigger] outs@[i])
                },
                Err(e) => {
                    &&& e == Error::SynthesisError
                    &&& old(ly).cells@.len() + pairs@.len() > old(ly).cap
                    &&& *final(ly) == *old(ly)
                },
            },
    {
        pairwise_forward(GadgetType::SubPairs, self.selector, ly, pairs)
    }
}

/// The pairwise-add chip: for each committed pair `(a, b)` it emits a
/// constrained output wire carrying `a + b`.
pub struct AddPairsChip {
    pub selector: usize,
}

impl AddPairsChip {
    /// Binds to the pre-allocated shared selector; allocates no physical
    /// resource itself.
    pub fn construct(gadget_config: &GadgetConfig) -> (r: AddPairsChip)
        ensures
            r.selector == gadget_config.sel_add,
    {
        AddPairsChip { selector: gadget_config.sel_add }
    }

    /// Emits one addition row per input pair; output index `i`
    /// corresponds exactly to input pair `i`.
    pub fn forward(
        &self,
        ly: &mut Layouter,
        pairs: &Vec<(AssignedCell, AssignedCell)>,
    ) -> (r: Result<Vec<AssignedCell>, Error>)
        requires
            old(ly).wf(),
            forall|k: int|
                0 <= k < pairs@.len() ==> old(ly).wire_ok(#[trigger] pairs@[k].0) && old(
                    ly,
                ).wire_ok(pairs@[k].1),
        ensures
            final(ly).wf(),
            match r {
                Ok(outs) => {
                    &&& old(ly).cells@.len() + pairs@.len() <= old(ly).cap
                    &&& pairwise_emitted(
                        *old(ly),
                        *final(ly),
                        pairs@,
                        outs@,
                        GadgetType::AddPairs,
                        self.selector,
                    )
                    &&& forall|i: int|
                        0 <= i < outs@.len() ==> final(ly).wire_ok(#[trigger] outs@[i])
                },
                Err(e) => {
                    &&& e == Error::SynthesisError
                    &&& old(ly).cells@.len() + pairs@.len() > old(ly).cap
                    &&& *final(ly) == *old(ly)
                },
            },
    {
        pairwise_forward(GadgetType::AddPairs, self.selector, ly, pairs)
    }
}

/// The pairwise-multiply chip: for each committed pair `(a, b)` it emits
/// a constrained output wire carrying `a * b`.
pub struct MulPairsChip {
    pub selector: usize,
}

impl MulPairsChip {
    /// Binds to the pre-allocated shared selector; allocates no physical
    /// resource itself.
    pub fn construct(gadget_config: &GadgetConfig) -> (r: MulPairsChip)
        ensures
            r.selector == gadget_config.sel_mul,
    {
        MulPairsChip { selector: gadget_config.sel_mul }
    }

    /// Emits one multiplication row per input pair; output index `i`
    /// corresponds exactly to input pair `i`.
    pub fn forward(
        &self,
        ly: &mut Layouter,
        pairs: &Vec<(AssignedCell, AssignedCell)>,
    ) -> (r: Result<Vec<AssignedCell>, Error>)
        requires
            old(ly).wf(),
            forall|k: int|
                0 <= k < pairs@.len() ==> old(ly).wire_ok(#[trigger] pairs@[k].0) && old(
                    ly,
                ).wire_ok(pairs@[k].1),
        ensures
            final(ly).wf(),
            match r {
                Ok(outs) => {
                    &&& old(ly).cells@.len() + pairs@.len() <= old(ly).cap
                    &&& pairwise_emitted(
                        *old(ly),
                        *final(ly),
                        pairs@,
                        outs@,
                        GadgetType::MulPairs,
                        self.selector,
                    )
                    &&& forall|i: int|
                        0 <= i < outs@.len() ==> final(ly).wire_ok(#[trigger] outs@[i])
                },
                Err(e) => {
                    &&& e == Error::SynthesisError
                    &&& old(ly).cells@.len() + pairs@.len() > old(ly).cap
                    &&& *final(ly) == *old(ly)
                },
            },
    {
        pairwise_forward(GadgetType::MulPairs, self.selector, ly, pairs)
    }
}

} // verus!
