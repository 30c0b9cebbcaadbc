use crate::field::{add_val, fe_add, fe_mul, fe_sub, fe_wf, mul_val, sub_val, FieldElem};
use crate::Error;
use vstd::prelude::*;

verus! {

/// The closed set of reusable constrained primitives (chips).
#[derive(Clone, Copy, PartialEq, Eq, Structural, Debug)]
pub enum GadgetType {
    AddPairs,
    SubPairs,
    MulPairs,
}

/// A handle to one committed circuit value: the index of its cell in the
/// layouter together with the concrete value assigned there.
#[derive(Clone, Copy, PartialEq, Eq, Structural, Debug)]
pub struct AssignedCell {
    pub cell: usize,
    pub value: FieldElem,
}

/// One enabled gate row. Enabling selector `selector` at this row imposes
/// the polynomial identity `cells[out] - op(cells[lhs], cells[rhs]) = 0`.
#[derive(Clone, Copy, PartialEq, Eq, Structural, Debug)]
pub struct Gate {
    pub op: GadgetType,
    pub selector: usize,
    pub lhs: usize,
    pub rhs: usize,
    pub out: usize,
}

/// The arithmetic relation a gate of kind `op` pins down, on reduced
/// representatives.
pub open spec fn gadget_val(op: GadgetType, a: int, b: int) -> int {
    match op {
        GadgetType::AddPairs => add_val(a, b),
        GadgetType::SubPairs => sub_val(a, b),
        GadgetType::MulPairs => mul_val(a, b),
    }
}

/// Whether one gate constraint accepts the assignment `cells`.
pub open spec fn gate_holds(g: Gate, cells: Seq<FieldElem>) -> bool {
    &&& g.lhs < cells.len()
    &&& g.rhs < cells.len()
    &&& g.out < cells.len()
    &&& cells[g.out as int].v as int == gadget_val(
        g.op,
        cells[g.lhs as int].v as int,
        cells[g.rhs as int].v as int,
    )
}

/// Whether one copy (permutation) constraint accepts the assignment.
pub open spec fn copy_holds(c: (usize, usize), cells: Seq<FieldElem>) -> bool {
    &&& c.0 < cells.len()
    &&& c.1 < cells.len()
    &&& cells[c.0 as int] == cells[c.1 as int]
}

/// Whether every gate constraint accepts the assignment.
pub open spec fn gates_hold(gates: Seq<Gate>, cells: Seq<FieldElem>) -> bool {
    forall|i: int| 0 <= i < gates.len() ==> gate_holds(#[trigger] gates[i], cells)
}

/// Whether every copy constraint accepts the assignment.
pub open spec fn copies_hold(copies: Seq<(usize, usize)>, cells: Seq<FieldElem>) -> bool {
    forall|i: int| 0 <= i < copies.len() ==> copy_holds(#[trigger] copies[i], cells)
}

/// The layout/synthesis collaborator at its boundary: the append-only
/// record of committed cells, permutation constraints and enabled gates
/// for one circuit build. `cap` is the cell capacity fixed when the build
/// starts; exceeding it is the structural failure every gadget propagates.
pub struct Layouter {
    pub cap: usize,
    pub cells: Vec<FieldElem>,
    pub copies: Vec<(usize, usize)>,
    pub gates: Vec<Gate>,
}

impl Layouter {
    /// Well-formed: within capacity, every committed value reduced, and
    /// the committed assignment itself accepted by every recorded
    /// constraint (the honest prover's witness satisfies the circuit).
    pub open spec fn wf(self) -> bool {
        &&& self.cells@.len() <= self.cap
        &&& forall|i: int| 0 <= i < self.cells@.len() ==> fe_wf(#[trigger] self.cells@[i])
        &&& gates_hold(self.gates@, self.cells@)
        &&& copies_hold(self.copies@, self.cells@)
    }

    /// Whether a wire refers into this layouter and carries the value
    /// committed at its cell.
    pub open spec fn wire_ok(self, w: AssignedCell) -> bool {
        &&& w.cell < self.cells@.len()
        &&& self.cells@[w.cell as int] == w.value
    }

    /// Starts an empty build with cell capacity `cap`.
    pub fn new(cap: usize) -> (r: Layouter)
        ensures
            r.wf(),
            r.cap == cap,
            r.cells@.len() == 0,
            r.copies@.len() == 0,
            r.gates@.len() == 0,
    {
        Layouter { cap, cells: Vec::new(), copies: Vec::new(), gates: Vec::new() }
    }

    /// Commits one value to a fresh cell and returns its wire; fails with
    /// `SynthesisError`, leaving the build untouched, exactly when the
    /// cell capacity is already exhausted.
    pub fn assign(&mut self, v: FieldElem) -> (r: Result<AssignedCell, Error>)
        requires
            old(self).wf(),
            fe_wf(v),
        ensures
            final(self).wf(),
            final(self).cap == old(self).cap,
            final(self).gates@ == old(self).gates@,
            final(self).copies@ == old(self).copies@,
            match r {
                Ok(w) => {
                    &&& old(self).cells@.len() < old(self).cap
                    &&& final(self).cells@ == old(self).cells@.push(v)
                    &&& w.cell == old(self).cells@.len()
                    &&& w.value == v
                    &&& final(self).wire_ok(w)
                },
                Err(e) => {
                    &&& e == Error::SynthesisError
                    &&& old(self).cells@.len() >= old(self).cap
                    &&& *final(self) == *old(self)
                },
            },
    {
        if self.cells.len() < self.cap {
            let cell = self.cells.len();
            self.cells.push(v);
            proof {
                lemma_constraints_preserved_on_extension(
                    old(self).gates@,
                    old(self).copies@,
                    old(self).cells@,
                    self.cells@,
                );
            }
            Ok(AssignedCell { cell, value: v })
        } else {
            Err(Error::SynthesisError)
        }
    }

    /// Records a permutation constraint between two wires already proven
    /// to carry equal values.
    pub fn constrain_equal(&mut self, a: &AssignedCell, b: &AssignedCell)
        requires
            old(self).wf(),
            old(self).wire_ok(*a),
            old(self).wire_ok(*b),
            a.value == b.value,
        ensures
            final(self).wf(),
            final(self).cap == old(self).cap,
            final(self).cells@ == old(self).cells@,
            final(self).gates@ == old(self).gates@,
            final(self).copies@ == old(self).copies@.push((a.cell, b.cell)),
    {
        self.copies.push((a.cell, b.cell));
    }

    /// Checks every recorded gate and copy constraint against a candidate
    /// assignment of reduced values: the verifier's acceptance condition
    /// over this build's constraints.
    pub fn constraints_hold_on(&self, asgn: &Vec<FieldElem>) -> (r: bool)
        requires
            forall|i: int| 0 <= i < asgn@.len() ==> fe_wf(#[trigger] asgn@[i]),
        ensures
            r <==> (gates_hold(self.gates@, asgn@) && copies_hold(self.copies@, asgn@)),
    {
        let mut i: usize = 0;
        while i < self.gates.len()
            invariant
                0 <= i <= self.gates@.len(),
                forall|k: int| 0 <= k < asgn@.len() ==> fe_wf(#[trigger] asgn@[k]),
                forall|k: int| 0 <= k < i ==> gate_holds(#[trigger] self.gates@[k], asgn@),
            decreases self.gates@.len() - i,
        {
            let g = self.gates[i];
            if g.lhs >= asgn.len() || g.rhs >= asgn.len() || g.out >= asgn.len() {
                return false;
            }
            let a = asgn[g.lhs];
            let b = asgn[g.rhs];
            let want = match g.op {
                GadgetType::AddPairs => fe_add(a, b),
                GadgetType::SubPairs => fe_sub(a, b),
                GadgetType::MulPairs => fe_mul(a, b),
            };
            if asgn[g.out].v != want.v {
                return false;
            }
            i += 1;
        }
        let mut j: usize = 0;
        while j < self.copies.len()
            invariant
                0 <= j <= self.copies@.len(),
                gates_hold(self.gates@, asgn@),
                forall|k: int| 0 <= k < j ==> copy_holds(#[trigger] self.copies@[k], asgn@),
            decreases self.copies@.len() - j,
        {
            let c = self.copies[j];
            if c.0 >= asgn.len() || c.1 >= asgn.len() {
                return false;
            }
            if asgn[c.0].v != asgn[c.1].v {
                return false;
            }
            j += 1;
        }
        true
    }
}

/// Appending fresh cells never invalidates constraints that held before:
/// every index a recorded gate or copy mentions keeps its value.
pub proof fn lemma_constraints_preserved_on_extension(
    gates: Seq<Gate>,
    copies: Seq<(usize, usize)>,
    cells: Seq<FieldElem>,
    extended: Seq<FieldElem>,
)
    requires
        gates_hold(gates, cells),
        copies_hold(copies, cells),
        extended.len() >= cells.len(),
        forall|i: int| 0 <= i < cells.len() ==> extended[i] == cells[i],
    ensures
        gates_hold(gates, extended),
        copies_hold(copies, extended),
{
    assert forall|i: int| 0 <= i < gates.len() implies gate_holds(#[trigger] gates[i], extended) by {
        assert(gate_holds(gates[i], cells));
    }
    assert forall|i: int| 0 <= i < copies.len() implies copy_holds(
        #[trigger] copies[i],
        extended,
    ) by {
        assert(copy_holds(copies[i], cells));
    }
}

/// Soundness of one recorded gate, stated over an arbitrary assignment:
/// when every recorded constraint accepts the assignment, the result
/// cell of gate `i` holds exactly the operation's value over its two
/// operand cells; and an assignment whose result cell differs from that
/// value fails the row's polynomial identity, so it is rejected.
pub proof fn lemma_gate_soundness(gates: Seq<Gate>, i: int, asgn: Seq<FieldElem>)
    requires
        0 <= i < gates.len(),
    ensures
        gates_hold(gates, asgn) ==> asgn[gates[i].out as int].v as int == gadget_val(
            gates[i].op,
            asgn[gates[i].lhs as int].v as int,
            asgn[gates[i].rhs as int].v as int,
        ),
        (gates[i].out < asgn.len() && asgn[gates[i].out as int].v as int != gadget_val(
            gates[i].op,
            asgn[gates[i].lhs as int].v as int,
            asgn[gates[i].rhs as int].v as int,
        )) ==> !gates_hold(gates, asgn),
{
    if gates_hold(gates, asgn) {
        assert(gate_holds(gates[i], asgn));
    }
}

} // verus!
