//! The deferred point-operation queue.
//!
//! Elliptic-curve equality assertions are not evaluated when they are
//! formed: they are collected during the run and verified once, at the
//! very end of a successful execution.

use vstd::prelude::*;

use crate::crypto;
use crate::errors::VMError;

verus! {

/// One deferred assertion: the linear combination of the listed
/// (scalar, compressed point) terms equals the identity.
pub struct PointOp {
    pub terms: Vec<(Vec<u8>, Vec<u8>)>,
}

impl View for PointOp {
    type V = Seq<(Seq<u8>, Seq<u8>)>;

    open spec fn view(&self) -> Seq<(Seq<u8>, Seq<u8>)> {
        crypto::terms_view(self.terms@)
    }
}

/// Whether every scalar and point of the operation is 32 bytes.
pub open spec fn point_op_wf(op: Seq<(Seq<u8>, Seq<u8>)>) -> bool {
    forall|i: int| 0 <= i < op.len() ==> (#[trigger] op[i]).0.len() == 32 && op[i].1.len() == 32
}

/// Whether every operation of a queue is well-formed.
pub open spec fn ops_wf(ops: Seq<Seq<(Seq<u8>, Seq<u8>)>>) -> bool {
    forall|i: int| 0 <= i < ops.len() ==> point_op_wf(#[trigger] ops[i])
}

/// Checks every deferred assertion, to be invoked exactly once at the
/// end of a successful run. Succeeds exactly when every collected
/// combination equals the identity.
pub fn verify_batch(ops: &Vec<PointOp>) -> (r: Result<(), VMError>)
    requires
        ops_wf(ops@.map_values(|op: PointOp| op@)),
    ensures
        r is Ok <==> (forall|i: int|
            0 <= i < ops@.len() ==> crypto::point_terms_hold(#[trigger] ops@[i]@)),
        r is Err ==> r == Err::<(), VMError>(VMError::PointOperationFailed),
{
    let ghost opsv = ops@.map_values(|op: PointOp| op@);
    let mut i: usize = 0;
    while i < ops.len()
        invariant
            i <= ops@.len(),
            opsv == ops@.map_values(|op: PointOp| op@),
            ops_wf(opsv),
            forall|j: int| 0 <= j < i ==> crypto::point_terms_hold(#[trigger] ops@[j]@),
        decreases ops@.len() - i,
    {
        assert(opsv[i as int] == ops@[i as int]@);
        proof {
            assert(point_op_wf(opsv[i as int]));
            assert forall|j: int| 0 <= j < ops@[i as int].terms@.len() implies (#[trigger] ops@[
            i as int].terms@[j]).0@.len() == 32 && ops@[i as int].terms@[j].1@.len() == 32 by {
                assert(opsv[i as int][j] == (ops@[i as int].terms@[j].0@, ops@[
                i as int].terms@[j].1@));
            }
        }
        if !crypto::eval_point_terms(&ops[i].terms) {
            return Err(VMError::PointOperationFailed);
        }
        i = i + 1;
    }
    Ok(())
}

} // verus!
