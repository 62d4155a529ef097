//! The variable commitment table: an append-only table mapping an
//! opaque variable handle to a detached or attached commitment.

use vstd::prelude::*;

use crate::errors::VMError;
use crate::types::Variable;

verus! {

/// An indirect reference to a high-level variable's commitment.
pub enum VariableCommitment {
    /// Not yet attached to the constraint system; the commitment is
    /// still replaceable via `reblind`.
    Detached(Vec<u8>),
    /// Attached to the constraint system at the given index; the
    /// commitment can no longer be replaced.
    Attached(Vec<u8>, usize),
}

/// Mathematical model of a table entry.
pub enum VarCommitV {
    Detached(Seq<u8>),
    Attached(Seq<u8>, int),
}

impl View for VariableCommitment {
    type V = VarCommitV;

    open spec fn view(&self) -> VarCommitV {
        match self {
            VariableCommitment::Detached(p) => VarCommitV::Detached(p@),
            VariableCommitment::Attached(p, i) => VarCommitV::Attached(p@, *i as int),
        }
    }
}

/// The commitment currently held by entry `i` of the table,
/// regardless of its attachment state.
pub open spec fn resolve_spec(table: Seq<VarCommitV>, i: int) -> Seq<u8>
    recommends
        0 <= i < table.len(),
{
    match table[i] {
        VarCommitV::Detached(p) => p,
        VarCommitV::Attached(p, _) => p,
    }
}

/// Whether every commitment in the table is a 32-byte point.
pub open spec fn table_wf(table: Seq<VarCommitV>) -> bool {
    forall|i: int| 0 <= i < table.len() ==> (#[trigger] resolve_spec(table, i)).len() == 32
}

/// The append-only variable commitment table.
pub struct CommitmentTable {
    pub entries: Vec<VariableCommitment>,
}

impl View for CommitmentTable {
    type V = Seq<VarCommitV>;

    open spec fn view(&self) -> Seq<VarCommitV> {
        self.entries@.map_values(|e: VariableCommitment| e@)
    }
}

impl CommitmentTable {
    /// Creates an empty table.
    pub fn new() -> (r: CommitmentTable)
        ensures
            r@ == Seq::<VarCommitV>::empty(),
    {
        let r = CommitmentTable { entries: Vec::new() };
        assert(r@ =~= Seq::<VarCommitV>::empty());
        r
    }

    /// The number of allocated variables.
    pub fn len(&self) -> (r: usize)
        ensures
            r == self@.len(),
    {
        self.entries.len()
    }

    /// Appends a detached entry and returns a fresh handle.
    ///
    /// Handles are strictly monotonic: each allocation returns the
    /// current length of the table, which then grows by one.
    pub fn allocate(&mut self, commitment: Vec<u8>) -> (r: Variable)
        requires
            commitment@.len() == 32,
        ensures
            r@ == old(self)@.len(),
            final(self)@ == old(self)@.push(VarCommitV::Detached(commitment@)),
    {
        let index = self.entries.len();
        self.entries.push(VariableCommitment::Detached(commitment));
        assert(self@ =~= old(self)@.push(VarCommitV::Detached(commitment@)));
        Variable { index }
    }

    /// Looks up the current commitment of a variable, regardless of
    /// its attachment state.
    pub fn resolve(&self, var: &Variable) -> (r: &Vec<u8>)
        requires
            0 <= var@ < self@.len(),
        ensures
            r@ == resolve_spec(self@, var@),
    {
        match &self.entries[var.index] {
            VariableCommitment::Detached(p) => p,
            VariableCommitment::Attached(p, _) => p,
        }
    }

    /// Attaches a detached variable to the constraint system at the
    /// given native index. Attaching an already-attached variable is
    /// rejected; the transition is one-directional.
    pub fn attach(&mut self, var: &Variable, cs_index: usize) -> (r: Result<(), VMError>)
        requires
            0 <= var@ < old(self)@.len(),
        ensures
            old(self)@[var@] matches VarCommitV::Detached(p) ==> r is Ok && final(self)@ == old(
                self,
            )@.update(var@, VarCommitV::Attached(p, cs_index as int)),
            old(self)@[var@] is Attached ==> r == Err::<(), VMError>(VMError::FormatError)
                && final(self)@ == old(self)@,
    {
        let entry = &self.entries[var.index];
        match entry {
            VariableCommitment::Detached(_) => {
                let p = match self.entries.remove(var.index) {
                    VariableCommitment::Detached(p) => p,
                    VariableCommitment::Attached(p, _) => p,
                };
                self.entries.insert(var.index, VariableCommitment::Attached(p, cs_index));
                assert(self@ =~= old(self)@.update(
                    var@,
                    VarCommitV::Attached(old(self)@[var@]->Detached_0, cs_index as int),
                ));
                Ok(())
            },
            VariableCommitment::Attached(_, _) => {
                assert(self@ =~= old(self)@);
                Err(VMError::FormatError)
            },
        }
    }

    /// Replaces the commitment of a still-detached variable.
    /// Reblinding an attached variable is rejected.
    pub fn reblind(&mut self, var: &Variable, commitment: Vec<u8>) -> (r: Result<(), VMError>)
        requires
            0 <= var@ < old(self)@.len(),
            commitment@.len() == 32,
        ensures
            old(self)@[var@] is Detached ==> r is Ok && final(self)@ == old(self)@.update(
                var@,
                VarCommitV::Detached(commitment@),
            ),
            old(self)@[var@] is Attached ==> r == Err::<(), VMError>(VMError::FormatError)
                && final(self)@ == old(self)@,
    {
        let entry = &self.entries[var.index];
        match entry {
            VariableCommitment::Detached(_) => {
                self.entries.remove(var.index);
                self.entries.insert(var.index, VariableCommitment::Detached(commitment));
                assert(self@ =~= old(self)@.update(var@, VarCommitV::Detached(commitment@)));
                Ok(())
            },
            VariableCommitment::Attached(_, _) => {
                assert(self@ =~= old(self)@);
                Err(VMError::FormatError)
            },
        }
    }
}

/// The table after a sequence of allocations, each appending a
/// detached entry.
pub open spec fn allocate_all_spec(table: Seq<VarCommitV>, commitments: Seq<Seq<u8>>) -> Seq<
    VarCommitV,
>
    decreases commitments.len(),
{
    if commitments.len() == 0 {
        table
    } else {
        allocate_all_spec(
            table.push(VarCommitV::Detached(commitments[0])),
            commitments.drop_first(),
        )
    }
}

/// Allocation returns strictly increasing handles, and each handle
/// resolves to exactly the commitment it was allocated with.
///
/// Allocating `commitments` one by one starting from `table` hands out
/// the handles `table.len(), table.len() + 1, ...` in order, and in
/// the resulting table the `i`-th of those handles still resolves to
/// `commitments[i]`.
pub proof fn lemma_allocate_monotonic(table: Seq<VarCommitV>, commitments: Seq<Seq<u8>>)
    ensures
        allocate_all_spec(table, commitments).len() == table.len() + commitments.len(),
        forall|j: int|
            0 <= j < table.len() ==> #[trigger] allocate_all_spec(table, commitments)[j]
                == table[j],
        forall|i: int|
            0 <= i < commitments.len() ==> resolve_spec(
                allocate_all_spec(table, commitments),
                table.len() + i,
            ) == #[trigger] commitments[i],
    decreases commitments.len(),
{
    if commitments.len() > 0 {
        let t1 = table.push(VarCommitV::Detached(commitments[0]));
        lemma_allocate_monotonic(t1, commitments.drop_first());
        assert forall|i: int| 0 <= i < commitments.len() implies resolve_spec(
            allocate_all_spec(table, commitments),
            table.len() + i,
        ) == #[trigger] commitments[i] by {
            if i == 0 {
                assert(allocate_all_spec(table, commitments)[table.len() as int]
                    == t1[table.len() as int]);
            } else {
                assert(commitments.drop_first()[i - 1] == commitments[i]);
            }
        }
    }
}

} // verus!
