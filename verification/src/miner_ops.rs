//! The miner handlers: register, unregister, claim. Mining itself lives in
//! the protocol kernel.

use vstd::prelude::*;
use crate::consts::MIN_CONSISTENCY_MULTIPLIER;
use crate::error::SpoolError;
use crate::hashing::{blake3_of, hash1};
use crate::state::Miner;

verus! {

/// Registers a miner: counters zeroed, the rolling challenge seeded from
/// the miner's address.
pub fn process_register(authority: &[u8; 32], name: &[u8; 32], miner_address: &[u8; 32]) -> (r:
    Miner)
    ensures
        r.authority == *authority,
        r.name == *name,
        r.unclaimed_rewards == 0,
        r.challenge@ == blake3_of(miner_address@),
        r.commitment@ == Seq::new(32, |i: int| 0u8),
        r.multiplier == MIN_CONSISTENCY_MULTIPLIER,
        r.last_proof_block == 0,
        r.last_proof_at == 0,
        r.total_proofs == 0,
        r.total_rewards == 0,
        r.wf(),
{
    let commitment = [0u8; 32];
    proof {
        assert(commitment@ =~= Seq::new(32, |i: int| 0u8));
    }
    Miner {
        authority: *authority,
        name: *name,
        unclaimed_rewards: 0,
        challenge: hash1(miner_address.as_slice()),
        commitment,
        multiplier: MIN_CONSISTENCY_MULTIPLIER,
        last_proof_block: 0,
        last_proof_at: 0,
        total_proofs: 0,
        total_rewards: 0,
    }
}

/// Clears a miner for unregistration: rewards must be claimed first.
pub fn process_unregister(miner: &Miner) -> (r: Result<(), SpoolError>)
    ensures
        r is Ok <==> miner.unclaimed_rewards == 0,
        r is Err ==> r == Err::<(), SpoolError>(SpoolError::ClaimTooLarge),
{
    if miner.unclaimed_rewards != 0 {
        return Err(SpoolError::ClaimTooLarge);
    }
    Ok(())
}

/// Claims rewards: a zero amount claims everything. Returns the amount to
/// pay out; the token transfer itself is the ledger's.
///
/// Fails with `ClaimTooLarge` when more is asked than is unclaimed; a
/// failed claim changes nothing.
pub fn process_claim(miner: &mut Miner, amount: u64) -> (r: Result<u64, SpoolError>)
    ensures
        final(miner).wf() == old(miner).wf(),
        ({
            let asked = if amount == 0 {
                old(miner).unclaimed_rewards
            } else {
                amount
            };
            if asked > old(miner).unclaimed_rewards {
                &&& r == Err::<u64, SpoolError>(SpoolError::ClaimTooLarge)
                &&& *final(miner) == *old(miner)
            } else {
                &&& r == Ok::<u64, SpoolError>(asked)
                &&& *final(miner) == (Miner {
                    unclaimed_rewards: (old(miner).unclaimed_rewards - asked) as u64,
                    ..*old(miner)
                })
            }
        }),
{
    let asked = if amount == 0 {
        miner.unclaimed_rewards
    } else {
        amount
    };
    if asked > miner.unclaimed_rewards {
        return Err(SpoolError::ClaimTooLarge);
    }
    miner.unclaimed_rewards = miner.unclaimed_rewards - asked;
    Ok(asked)
}

} // verus!
