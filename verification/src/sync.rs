//! Keeping in step with the chain.

use crate::error::{WalletError, WalletErrorView};
use crate::types::Txid;
use crate::wallet::Wallet;
use vstd::prelude::*;

verus! {

/// The wallet is saved after this number of blocks in a long sync.
pub const PERSIST_EVERY_N_BLOCKS: u32 = 500;

/// The height to start from where the wallet and the node agree on no block: the birthday of a
/// wallet that is still at the genesis block, else the first block, so that no block of a new
/// chain is left out.
pub open spec fn start_height(tip_height: u32, birthday: Option<u64>) -> u32 {
    if tip_height == 0 {
        match birthday {
            Some(height) => (height % 0x1_0000_0000) as u32,
            None => 0,
        }
    } else {
        0
    }
}

impl Wallet {
    /// The height to start a sync from where the wallet and the node agree on no block.
    pub fn sync_start_height(&self, chain_tip_height: u32) -> (r: u32)
        ensures
            r == start_height(chain_tip_height, self@.wallet_birthday),
    {
        if chain_tip_height == 0 {
            match self.store.wallet_birthday {
                Some(height) => (height % 0x1_0000_0000) as u32,
                None => 0,
            }
        } else {
            0
        }
    }
}

/// Counts a block that was taken in. The flag says whether the wallet is to be saved now; the
/// number is the blocks since it was saved.
pub fn count_block(blocks_since_persist: u32) -> (r: (bool, u32))
    requires
        blocks_since_persist < PERSIST_EVERY_N_BLOCKS,
    ensures
        r.0 == (blocks_since_persist + 1 == PERSIST_EVERY_N_BLOCKS),
        r.1 == if r.0 {
            0
        } else {
            (blocks_since_persist + 1) as u32
        },
        r.1 < PERSIST_EVERY_N_BLOCKS,
{
    let count: u32 = blocks_since_persist + 1;
    if count >= PERSIST_EVERY_N_BLOCKS {
        (true, 0)
    } else {
        (false, count)
    }
}

/// Checks a proof of inclusion: it is to name the expected transaction and no other.
pub fn verify_tx_out_proof(expected_txid: Txid, proof_txids: Vec<Txid>) -> (r: Result<(), WalletError>)
    ensures
        match r {
            Ok(()) => proof_txids@ == seq![expected_txid],
            Err(e) => proof_txids@ != seq![expected_txid] && e@
                == WalletErrorView::MerkleProofInvalid {
                expected: expected_txid,
                got: proof_txids@,
            },
        },
{
    if proof_txids.len() == 1 && proof_txids[0] == expected_txid {
        assert(proof_txids@ =~= seq![expected_txid]);
        Ok(())
    } else {
        assert(proof_txids@ != seq![expected_txid]) by {
            if proof_txids@ == seq![expected_txid] {
                assert(proof_txids@[0] == expected_txid);
            }
        }
        Err(WalletError::MerkleProofInvalid { expected: expected_txid, got: proof_txids })
    }
}

// ---------------------------------------------------------------------------------------------
// Laws
// ---------------------------------------------------------------------------------------------

/// A wallet that is past the genesis block starts from the first block; one that is still there
/// starts from its birthday, or from the first block where it has none.
pub proof fn law_sync_leaves_no_block_out(wallet: Wallet, tip: u32, r: u32)
    requires
        call_ensures(Wallet::sync_start_height, (&wallet, tip), r),
    ensures
        tip > 0 ==> r == 0,
        tip == 0 && wallet@.wallet_birthday is None ==> r == 0,
        wallet@.wallet_birthday matches Some(height) ==> tip == 0 && height <= u32::MAX ==> r
            == height,
        wallet@.wallet_birthday matches Some(height) ==> tip == 0 ==> (height - r) % 0x1_0000_0000
            == 0,
{
}

/// The wallet is saved with every five hundredth block: each block that is taken in counts one, and
/// the count starts anew when the wallet is saved.
pub proof fn law_wallet_is_saved_in_time(blocks: u32, r: (bool, u32))
    requires
        blocks < PERSIST_EVERY_N_BLOCKS,
        call_ensures(count_block, (blocks,), r),
    ensures
        blocks == 499 ==> r.0 && r.1 == 0,
        blocks < 499 ==> !r.0 && r.1 == blocks + 1,
{
}

/// A proof holds exactly where it names one transaction, the expected one.
pub proof fn law_proof_names_the_transaction_alone(
    expected: Txid,
    named: Vec<Txid>,
    r: Result<(), WalletError>,
)
    requires
        call_ensures(verify_tx_out_proof, (expected, named), r),
    ensures
        r is Ok <==> named@.len() == 1 && named@[0] == expected,
{
    if named@.len() == 1 && named@[0] == expected {
        assert(named@ =~= seq![expected]);
    }
}

} // verus!
