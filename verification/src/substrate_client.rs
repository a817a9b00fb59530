//! What the server asks of a Substrate node and what it gets back.

use crate::primitives::H256;
use vstd::prelude::*;

verus! {

/// A raw extrinsic payload with its index in the block.
#[derive(Debug)]
pub struct RawExtrinsic {
    /// The SCALE-encoded extrinsic bytes.
    pub payload: Vec<u8>,
    /// The extrinsic index within the block.
    pub index: usize,
}

impl View for RawExtrinsic {
    type V = (Seq<u8>, nat);

    open spec fn view(&self) -> (Seq<u8>, nat) {
        (self.payload@, self.index as nat)
    }
}

impl Clone for RawExtrinsic {
    fn clone(&self) -> (copy: Self)
        ensures
            copy@ == self@,
    {
        RawExtrinsic { payload: self.payload.clone(), index: self.index }
    }
}

/// The health of a node.
#[derive(Clone, Copy, Debug, PartialEq, Eq, Structural)]
pub struct NodeHealth {
    /// How many peers the node has.
    pub peers: usize,
    /// Whether the node is syncing.
    pub is_syncing: bool,
    /// Whether the node is expected to have peers.
    pub should_have_peers: bool,
}

/// Numbers the extrinsics of a block by their position.
pub fn index_extrinsics(payloads: &[Vec<u8>]) -> (raws: Vec<RawExtrinsic>)
    ensures
        raws@.len() == payloads@.len(),
        forall|i: int| 0 <= i < raws@.len() ==> (#[trigger] raws@[i])@ == (payloads@[i]@, i as nat),
{
    let mut raws: Vec<RawExtrinsic> = Vec::new();
    let mut i: usize = 0;
    while i < payloads.len()
        invariant
            i <= payloads@.len(),
            raws@.len() == i,
            forall|j: int| 0 <= j < i ==> (#[trigger] raws@[j])@ == (payloads@[j]@, j as nat),
        decreases payloads@.len() - i,
    {
        raws.push(RawExtrinsic { payload: payloads[i].clone(), index: i });
        i += 1;
    }
    raws
}

/// The status of a transaction in the pool.
#[derive(Debug)]
pub enum TransactionStatus {
    /// The transaction waits for others before it.
    Future,
    /// The transaction is ready.
    Ready,
    /// The transaction was broadcast to these peers.
    Broadcast(Vec<String>),
    /// The transaction is in a block, at an index.
    InBlock(H256, usize),
    /// The block that held the transaction was retracted.
    Retracted(H256),
    /// The block that holds the transaction was not finalized in time.
    FinalityTimeout(H256),
    /// The transaction is in a finalized block, at an index.
    Finalized(H256, usize),
    /// The transaction was replaced by another.
    Usurped(H256),
    /// The transaction was dropped from the pool.
    Dropped,
    /// The transaction is no longer valid.
    Invalid,
}

/// The result of submitting a transaction to the pool.
pub type SubmitResult = TransactionStatus;

/// How far a node has come with syncing.
#[derive(Clone, Copy, Debug, PartialEq, Eq, Structural)]
pub struct SyncState {
    /// The block that syncing began with.
    pub starting_block: u32,
    /// The block that syncing has come to.
    pub current_block: u32,
    /// The highest block that is known.
    pub highest_block: u32,
}

/// The two-dimensional weight of work on the chain.
#[derive(Clone, Copy, Debug, PartialEq, Eq, Structural)]
pub struct Weight {
    /// The computation time.
    pub ref_time: u64,
    /// The size of the storage proof.
    pub proof_size: u64,
}

/// Where a block stands in the chain.
#[derive(Clone, Copy, Debug)]
pub struct BlockInfo {
    /// The hash of the block.
    pub hash: H256,
    /// The number of the block.
    pub number: u32,
    /// The hash of the block before it.
    pub parent_hash: H256,
}

/// Each extrinsic is numbered by its position.
pub proof fn extrinsics_are_numbered_by_position(payloads: &[Vec<u8>], raws: Vec<RawExtrinsic>)
    requires
        call_ensures(index_extrinsics, (payloads,), raws),
    ensures
        raws@.len() == payloads@.len(),
        forall|i: int|
            0 <= i < raws@.len() ==> (#[trigger] raws@[i]).payload@ == payloads@[i]@
                && raws@[i].index == i,
{
    assert forall|i: int| 0 <= i < raws@.len() implies (#[trigger] raws@[i]).payload@
        == payloads@[i]@ && raws@[i].index == i by {
        assert(raws@[i]@ == (payloads@[i]@, i as nat));
    }
}

} // verus!
