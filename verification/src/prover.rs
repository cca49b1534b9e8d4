//! The prover: the sequential half of the delay function.

use vstd::prelude::*;
use crate::chain::{chain, is_chain_of, iterate, lemma_chain_is_linked};
use crate::hash::digest;

verus! {

/// Hashes `challenge` `difficulty` times in a row and keeps every
/// intermediate digest, in order.
///
/// Each step takes the previous step's output as its input, so the work
/// cannot be spread over several workers. A difficulty of zero gives the
/// empty proof.
pub fn solve_with_proof(challenge: String, difficulty: u64) -> (proof: Vec<String>)
    ensures
        proof.deep_view() == chain(challenge@, difficulty as nat),
        proof.len() == difficulty,
        is_chain_of(challenge@, proof.deep_view()),
{
    let mut hash = challenge;
    let mut proof: Vec<String> = Vec::new();
    let mut done: u64 = 0;
    while done < difficulty
        invariant
            done <= difficulty,
            proof.len() == done,
            hash@ == iterate(challenge@, done as nat),
            forall|i: int| 0 <= i < done ==> (#[trigger] proof[i])@ == iterate(challenge@, (i + 1) as nat),
        decreases difficulty - done,
    {
        hash = digest(hash.as_str());
        proof.push(hash.clone());
        done = done + 1;
    }
    proof {
        assert(proof.deep_view() =~= chain(challenge@, difficulty as nat));
        lemma_chain_is_linked(challenge@, difficulty as nat);
    }
    proof
}

} // verus!
