use crate::field::{fe_wf, FieldElem};
use crate::layout::{AssignedCell, Layouter};
use crate::Error;
use vstd::prelude::*;

verus! {

/// View of the pool entries as a map from identifier to wire.
pub open spec fn pool_view(entries: Seq<(i64, AssignedCell)>) -> Map<i64, AssignedCell>
    decreases entries.len(),
{
    if entries.len() == 0 {
        Map::empty()
    } else {
        pool_view(entries.drop_last()).insert(entries.last().0, entries.last().1)
    }
}

/// An identifier is in the view exactly when some entry carries it.
pub proof fn lemma_pool_view_dom(entries: Seq<(i64, AssignedCell)>, id: i64)
    ensures
        pool_view(entries).contains_key(id) <==> exists|i: int|
            0 <= i < entries.len() && (#[trigger] entries[i]).0 == id,
    decreases entries.len(),
{
    if entries.len() > 0 {
        lemma_pool_view_dom(entries.drop_last(), id);
        if entries.last().0 == id {
            assert(entries[entries.len() - 1].0 == id);
        } else {
            if exists|i: int| 0 <= i < entries.len() && (#[trigger] entries[i]).0 == id {
                let i = choose|i: int| 0 <= i < entries.len() && (#[trigger] entries[i]).0 == id;
                assert(entries.drop_last()[i] == entries[i]);
            }
        }
    }
}

/// With pairwise-distinct identifiers, the view maps an entry's
/// identifier to that entry's wire.
pub proof fn lemma_pool_view_at(entries: Seq<(i64, AssignedCell)>, i: int)
    requires
        0 <= i < entries.len(),
        forall|p: int, q: int|
            0 <= p < q < entries.len() ==> (#[trigger] entries[p]).0 != (#[trigger] entries[q]).0,
    ensures
        pool_view(entries).contains_key(entries[i].0),
        pool_view(entries)[entries[i].0] == entries[i].1,
    decreases entries.len(),
{
    if i == entries.len() - 1 {
    } else {
        assert(entries[i].0 != entries[entries.len() - 1].0);
        assert(entries.drop_last()[i] == entries[i]);
        lemma_pool_view_at(entries.drop_last(), i);
    }
}

/// A looked-up constant's wire refers into any layouter the pool's
/// wires refer into.
pub proof fn lemma_view_wire_ok(pool: ConstantPool, ly: Layouter, id: i64)
    requires
        pool.wf(),
        pool.wires_ok(ly),
        pool.view_map().contains_key(id),
    ensures
        ly.wire_ok(pool.view_map()[id]),
{
    lemma_pool_view_dom(pool.entries@, id);
    let i = choose|i: int| 0 <= i < pool.entries@.len() && (#[trigger] pool.entries@[i]).0 == id;
    lemma_pool_view_at(pool.entries@, i);
}

/// The shared pool of circuit-committed constants, keyed by small integer
/// identifiers and reused across all layers so identical literals are
/// committed once. Populated during the configuration phase; read-only
/// during synthesis. Invariant: one entry per distinct identifier.
pub struct ConstantPool {
    pub entries: Vec<(i64, AssignedCell)>,
}

impl ConstantPool {
    /// The pool as a map from identifier to committed wire.
    pub open spec fn view_map(self) -> Map<i64, AssignedCell> {
        pool_view(self.entries@)
    }

    /// Well-formed: identifiers are pairwise distinct.
    pub open spec fn wf(self) -> bool {
        forall|p: int, q: int|
            0 <= p < q < self.entries@.len() ==> (#[trigger] self.entries@[p]).0 != (
            #[trigger] self.entries@[q]).0
    }

    /// All pooled wires refer into `ly` with their committed values.
    pub open spec fn wires_ok(self, ly: Layouter) -> bool {
        forall|i: int|
            0 <= i < self.entries@.len() ==> ly.wire_ok((#[trigger] self.entries@[i]).1)
    }

    /// An empty pool.
    pub fn new() -> (r: ConstantPool)
        ensures
            r.wf(),
            r.entries@.len() == 0,
            r.view_map() == Map::<i64, AssignedCell>::empty(),
    {
        ConstantPool { entries: Vec::new() }
    }

    /// Whether `id` is registered.
    pub fn contains(&self, id: i64) -> (r: bool)
        ensures
            r <==> self.view_map().contains_key(id),
    {
        let mut i: usize = 0;
        while i < self.entries.len()
            invariant
                0 <= i <= self.entries@.len(),
                forall|j: int| 0 <= j < i ==> (#[trigger] self.entries@[j]).0 != id,
            decreases self.entries@.len() - i,
        {
            if self.entries[i].0 == id {
                proof {
                    lemma_pool_view_dom(self.entries@, id);
                }
                return true;
            }
            i += 1;
        }
        proof {
            lemma_pool_view_dom(self.entries@, id);
        }
        false
    }

    /// Looks a constant up. An unregistered identifier is surfaced
    /// immediately as `UnregisteredConstant` — a configuration defect —
    /// and never silently defaulted.
    pub fn lookup(&self, id: i64) -> (r: Result<AssignedCell, Error>)
        requires
            self.wf(),
        ensures
            match r {
                Ok(w) => self.view_map().contains_key(id) && w == self.view_map()[id],
                Err(e) => e == Error::UnregisteredConstant && !self.view_map().contains_key(id),
            },
    {
        let mut i: usize = 0;
        while i < self.entries.len()
            invariant
                0 <= i <= self.entries@.len(),
                self.wf(),
                forall|j: int| 0 <= j < i ==> (#[trigger] self.entries@[j]).0 != id,
            decreases self.entries@.len() - i,
        {
            let e = self.entries[i];
            if e.0 == id {
                proof {
                    lemma_pool_view_at(self.entries@, i as int);
                }
                return Ok(e.1);
            }
            i += 1;
        }
        proof {
            lemma_pool_view_dom(self.entries@, id);
        }
        Err(Error::UnregisteredConstant)
    }

    /// Commits `value` to a fresh cell of `ly` and registers the wire
    /// under the fresh identifier `id`: constant materialization during
    /// the configuration phase.
    pub fn register_constant(&mut self, ly: &mut Layouter, id: i64, value: FieldElem) -> (r: Result<
        AssignedCell,
        Error,
    >)
        requires
            old(self).wf(),
            !old(self).view_map().contains_key(id),
            old(self).wires_ok(*old(ly)),
            old(ly).wf(),
            fe_wf(value),
        ensures
            final(self).wf(),
            final(ly).wf(),
            final(ly).cap == old(ly).cap,
            final(ly).gates@ == old(ly).gates@,
            final(ly).copies@ == old(ly).copies@,
            final(self).wires_ok(*final(ly)),
            match r {
                Ok(w) => {
                    &&& final(ly).cells@ == old(ly).cells@.push(value)
                    &&& w.value == value
                    &&& final(ly).wire_ok(w)
                    &&& final(self).view_map() == old(self).view_map().insert(id, w)
                    &&& final(self).entries@ == old(self).entries@.push((id, w))
                },
                Err(e) => {
                    &&& e == Error::SynthesisError
                    &&& old(ly).cells@.len() >= old(ly).cap
                    &&& *final(self) == *old(self)
                    &&& *final(ly) == *old(ly)
                },
            },
    {
        let w = match ly.assign(value) {
            Ok(w) => w,
            Err(e) => {
                return Err(e);
            },
        };
        let ghost pre_entries = self.entries@;
        self.entries.push((id, w));
        proof {
            lemma_pool_view_dom(pre_entries, id);
            assert(pre_entries.push((id, w)).drop_last() =~= pre_entries);
            assert forall|i: int| 0 <= i < self.entries@.len() implies ly.wire_ok(
                (#[trigger] self.entries@[i]).1,
            ) by {
                if i < pre_entries.len() {
                    assert(old(self).wires_ok(*old(ly)));
                    assert(old(ly).wire_ok(pre_entries[i].1));
                    assert(ly.cells@[pre_entries[i].1.cell as int] == old(
                        ly,
                    ).cells@[pre_entries[i].1.cell as int]);
                }
            }
        }
        Ok(w)
    }
}

} // verus!
