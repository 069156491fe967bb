//! How a DeFrida validator decides on a proposed block: it asks the side network
//! for its proof of the block's view and accepts the block when that proof verifies
//! against the commitment in the block.
use vstd::prelude::*;

verus! {

/// What a validator does with the data of a proposed block.
#[derive(Debug, Clone, Copy, PartialEq, Eq)]
pub enum BlockCheck {
    /// The block carries no data: valid as it is.
    Accept,
    /// The data is not block data: invalid.
    Reject,
    /// Ask the side network for this validator's proof of the block of `view`.
    RequestProof { view: u64 },
}

/// What came back from the side network.
#[derive(Debug, Clone, Copy, PartialEq, Eq)]
pub enum ProofReply {
    /// A proof, and whether it verified against the block's commitment.
    Proof { verified: bool },
    /// The side network holds no proof for this validator.
    NoProof,
    /// No reply in time, or a reply of another kind.
    Failed,
}

/// First step: an empty block is accepted; data that does not parse as block data
/// (`parsed_view` is `None`) is rejected; otherwise the proof of the parsed view is
/// requested.
pub fn check_block_data(data_len: usize, parsed_view: Option<u64>) -> (r: BlockCheck)
    ensures
        data_len == 0 ==> r == BlockCheck::Accept,
        data_len > 0 ==> r == match parsed_view {
            Some(view) => BlockCheck::RequestProof { view },
            None => BlockCheck::Reject,
        },
{
    if data_len == 0 {
        return BlockCheck::Accept;
    }
    match parsed_view {
        Some(view) => BlockCheck::RequestProof { view },
        None => BlockCheck::Reject,
    }
}

/// Second step: the block is valid exactly when a proof came back and verified.
pub fn block_valid(reply: ProofReply) -> (r: bool)
    ensures
        r <==> reply == (ProofReply::Proof { verified: true }),
{
    match reply {
        ProofReply::Proof { verified } => verified,
        ProofReply::NoProof => false,
        ProofReply::Failed => false,
    }
}

} // verus!
