//! The verifier: the half of the delay function that can be spread over
//! workers.
//!
//! A proof passes when its first element is the reference that the caller
//! holds and, in every chunk, each element hashes to the one after it. The
//! link from the last element of a chunk to the first element of the next
//! chunk belongs to no chunk and is not looked at.
//!
//! [`try_verify`] and [`verify`] go through the chunks one after another. A
//! caller with several workers gets the same verdict by taking the chunks
//! from [`plan_chunks`](crate::partition::plan_chunks), giving each to
//! [`verify_chunk`] on a worker of its own, and handing what they report to
//! [`combine`].

use vstd::prelude::*;
use vstd::slice::slice_subrange;
use crate::chain::{link_holds, links_hold};
use crate::error::VerifyError;
use crate::hash::digest;
use crate::partition::{chunk_end, chunk_start, is_partition, plan_chunks, workers_used};

verus! {

/// The anchor check: the first element of the proof is the reference itself.
///
/// The reference is compared as it is given and is not hashed first. A caller
/// that starts from a seed therefore hands in the digest of the seed, which
/// is what a genuine proof begins with; a reference that was read off the
/// proof under test anchors that proof whatever it holds. An empty proof has
/// no first element and passes.
pub open spec fn anchored(reference: Seq<char>, proof: Seq<Seq<char>>) -> bool {
    proof.len() > 0 ==> proof[0] == reference
}

/// The elements of `proof` that worker `index` checks.
pub open spec fn chunk_of(proof: Seq<Seq<char>>, worker_count: nat, index: nat) -> Seq<Seq<char>> {
    proof.subrange(
        chunk_start(proof.len(), worker_count, index) as int,
        chunk_end(proof.len(), worker_count, index) as int,
    )
}

/// The verdict on a proof: the anchor check passes and so does every chunk.
pub open spec fn verdict(reference: Seq<char>, proof: Seq<Seq<char>>, worker_count: nat) -> bool {
    &&& anchored(reference, proof)
    &&& forall|c: nat|
        c < workers_used(proof.len(), worker_count) ==> links_hold(
            #[trigger] chunk_of(proof, worker_count, c),
        )
}

/// What a verification request comes to: an error if it cannot be served,
/// and else the verdict on the proof.
pub open spec fn outcome(
    reference: Seq<char>,
    proof: Seq<Seq<char>>,
    difficulty: nat,
    worker_count: nat,
) -> Result<bool, VerifyError> {
    if worker_count == 0 {
        Err(VerifyError::NoWorkers)
    } else if proof.len() != difficulty {
        Err(VerifyError::LengthMismatch)
    } else {
        Ok(verdict(reference, proof, worker_count))
    }
}

/// Compares the first element of `proof` with `reference`.
pub fn anchor_holds(reference: &String, proof: &[String]) -> (ok: bool)
    ensures
        ok == anchored(reference@, proof.deep_view()),
{
    if proof.len() == 0 {
        true
    } else {
        proof[0] == *reference
    }
}

/// Re-derives every link of one chunk, in order, and stops at the first
/// element that is not the hash of the one before it.
pub fn verify_chunk(chunk: &[String]) -> (ok: bool)
    ensures
        ok == links_hold(chunk.deep_view()),
{
    let ghost run = chunk.deep_view();
    let mut idx: usize = 1;
    while idx < chunk.len()
        invariant
            1 <= idx,
            run == chunk.deep_view(),
            forall|j: int| 0 <= j && j + 1 < idx ==> #[trigger] link_holds(run, j),
        decreases chunk.len() - idx,
    {
        let hash = digest(chunk[idx - 1].as_str());
        if hash != chunk[idx] {
            assert(!link_holds(run, idx - 1));
            return false;
        }
        assert(link_holds(run, idx - 1));
        idx = idx + 1;
    }
    true
}

/// The overall verdict from its parts: the anchor check and what each worker
/// reported of its chunk.
pub fn combine(anchor: bool, chunk_verdicts: &[bool]) -> (ok: bool)
    ensures
        ok == (anchor && forall|c: int| 0 <= c < chunk_verdicts.len() ==> chunk_verdicts[c]),
{
    let mut ok = anchor;
    let mut idx: usize = 0;
    while idx < chunk_verdicts.len()
        invariant
            idx <= chunk_verdicts.len(),
            ok == (anchor && forall|c: int| 0 <= c < idx ==> chunk_verdicts[c]),
        decreases chunk_verdicts.len() - idx,
    {
        ok = ok && chunk_verdicts[idx];
        idx = idx + 1;
    }
    ok
}

/// Verifies `proof` against `reference`, chunk by chunk, or says why the
/// request cannot be served.
pub fn try_verify(reference: String, proof: Vec<String>, difficulty: u64, worker_count: usize) -> (r:
    Result<bool, VerifyError>)
    ensures
        r == outcome(reference@, proof.deep_view(), difficulty as nat, worker_count as nat),
{
    let chunks = match plan_chunks(proof.len(), difficulty, worker_count) {
        Ok(chunks) => chunks,
        Err(e) => {
            return Err(e);
        },
    };
    let ghost run = proof.deep_view();
    let ghost k = worker_count as nat;
    let anchor = anchor_holds(&reference, proof.as_slice());
    if !anchor {
        return Ok(false);
    }
    let mut chunk_verdicts: Vec<bool> = Vec::new();
    let mut idx: usize = 0;
    while idx < chunks.len()
        invariant
            run == proof.deep_view(),
            is_partition(chunks@, run.len(), k),
            forall|c: int|
                0 <= c < chunks.len() ==> (#[trigger] chunks[c]).start <= chunks[c].end
                    <= proof.len(),
            idx <= chunks.len(),
            chunk_verdicts.len() == idx,
            forall|c: int|
                0 <= c < idx ==> #[trigger] chunk_verdicts[c] == links_hold(chunk_of(run, k, c as nat)),
        decreases chunks.len() - idx,
    {
        let chunk = chunks[idx];
        let part = slice_subrange(proof.as_slice(), chunk.start, chunk.end);
        assert(part.deep_view() =~= chunk_of(run, k, idx as nat));
        let ok = verify_chunk(part);
        chunk_verdicts.push(ok);
        idx = idx + 1;
    }
    let ok = combine(anchor, chunk_verdicts.as_slice());
    proof {
        if ok {
            assert forall|c: nat| c < workers_used(run.len(), k) implies links_hold(
                #[trigger] chunk_of(run, k, c),
            ) by {
                assert(chunk_verdicts[c as int]);
            }
        } else {
            let c = choose|c: int| 0 <= c < chunk_verdicts.len() && !chunk_verdicts[c];
            assert(!links_hold(chunk_of(run, k, c as nat)));
        }
    }
    Ok(ok)
}

/// Verifies `proof` against `reference`: `true` if the request can be served
/// and the proof passes, `false` in every other case.
pub fn verify(reference: String, proof: Vec<String>, difficulty: u64, worker_count: usize) -> (ok:
    bool)
    ensures
        ok == {
            &&& worker_count >= 1
            &&& proof.len() == difficulty
            &&& verdict(reference@, proof.deep_view(), worker_count as nat)
        },
{
    match try_verify(reference, proof, difficulty, worker_count) {
        Ok(ok) => ok,
        Err(_) => false,
    }
}

} // verus!
