//! The threshold ECDSA component: one entry point that ticks the pre-signer
//! on each change of the pool, and one that builds a block's payload.
use vstd::prelude::*;
use crate::crypto::EcdsaCrypto;
use crate::payload::{spec_next_payload, spec_with_signatures, EcdsaPayload};
use crate::pool::EcdsaPool;
use crate::pre_signer::{pre_signer_changes, PreSigner, PreSignerOutcomes};
use crate::types::{ChangeAction, EcdsaTip, NodeId, Transcript};

verus! {

/// The threshold ECDSA component of one replica.
pub struct EcdsaImpl<C> {
    pub pre_signer: PreSigner,
    pub crypto: C,
}

impl<C: EcdsaCrypto> EcdsaImpl<C> {
    /// The component of replica `node_id`, with its cryptographic service.
    pub fn new(node_id: NodeId, crypto: C) -> (r: Self)
        ensures
            r.pre_signer.node_id == node_id,
            r.crypto == crypto,
    {
        EcdsaImpl { pre_signer: PreSigner::new(node_id), crypto }
    }

    /// The change set this replica proposes for `pool` under the finalized
    /// `tip`: the pre-signer's, for the outcomes of the operations the
    /// cryptographic service carried out.
    pub fn on_state_change(&self, tip: &EcdsaTip, pool: &EcdsaPool) -> (r: Vec<ChangeAction>)
        requires
            tip.wf(),
        ensures
            exists|o: PreSignerOutcomes|
                o.fits(*tip, *pool) && r@ == #[trigger] pre_signer_changes(
                    self.pre_signer.node_id,
                    *tip,
                    *pool,
                    o,
                ),
    {
        self.pre_signer.on_state_change(tip, pool, &self.crypto)
    }

    /// The payload of the block at `height` that follows `prev`, under the
    /// finalized `tip`, from the completed transcripts `done` and the
    /// validated partition of `pool`.
    pub fn build_payload(
        &self,
        prev: &EcdsaPayload,
        tip: &EcdsaTip,
        done: &Vec<Transcript>,
        pool: &EcdsaPool,
        height: u64,
        target: u64,
    ) -> (r: EcdsaPayload)
        requires
            prev@.wf(),
            tip.wf(),
            3 * prev.in_creation@.len() + 2 <= u64::MAX,
        ensures
            r@.wf(),
            exists|outs: Seq<Option<u64>>|
                outs.len() == spec_next_payload(prev@, *tip, done@, height, target).ongoing.len()
                    && r@ == #[trigger] spec_with_signatures(
                    spec_next_payload(prev@, *tip, done@, height, target),
                    *tip,
                    pool.validated@,
                    outs,
                ),
    {
        prev.build(tip, done, &pool.validated, height, target, &self.crypto)
    }
}

} // verus!
