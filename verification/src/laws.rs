//! What holds of the prover and the verifier together.

use vstd::prelude::*;
use crate::chain::{chain, is_chain_of, lemma_chain_is_linked, lemma_chain_is_unique, link_holds, links_hold};
use crate::error::VerifyError;
use crate::hash::sha256_hex;
use crate::partition::{
    chunk_end,
    chunk_index,
    chunk_start,
    lemma_chunk_index,
    lemma_chunks_ordered,
    lemma_chunks_tile,
    workers_used,
};
use crate::verification::{anchored, chunk_of, outcome, verdict};

verus! {

/// The link from position `j` to position `j + 1` lies inside one chunk, so
/// that the worker of that chunk re-derives it.
pub open spec fn link_is_checked(len: nat, worker_count: nat, j: int) -> bool {
    &&& 0 <= j
    &&& j + 1 < len
    &&& j + 1 < chunk_end(len, worker_count, chunk_index(len, worker_count, j as nat))
}

/// Position `pos` is the first of its chunk.
pub open spec fn begins_chunk(len: nat, worker_count: nat, pos: int) -> bool {
    pos == chunk_start(len, worker_count, chunk_index(len, worker_count, pos as nat))
}

/// Position `pos` is the last of its chunk.
pub open spec fn ends_chunk(len: nat, worker_count: nat, pos: int) -> bool {
    pos + 1 == chunk_end(len, worker_count, chunk_index(len, worker_count, pos as nat))
}

/// The verdict looks at the anchor and at the links inside the chunks, and
/// at nothing else: a proof passes exactly if its first element is the
/// reference and every link that does not lead from one chunk into the next
/// holds.
pub proof fn lemma_verdict_by_links(reference: Seq<char>, proof: Seq<Seq<char>>, worker_count: nat)
    requires
        worker_count >= 1,
    ensures
        verdict(reference, proof, worker_count) <==> {
            &&& anchored(reference, proof)
            &&& forall|j: int| #[trigger]
                link_is_checked(proof.len(), worker_count, j) ==> link_holds(proof, j)
        },
{
    let len = proof.len();
    lemma_chunks_tile(len, worker_count);
    if verdict(reference, proof, worker_count) {
        assert forall|j: int| #[trigger] link_is_checked(len, worker_count, j) implies link_holds(
            proof,
            j,
        ) by {
            lemma_chunk_index(len, worker_count, j as nat);
            let c = chunk_index(len, worker_count, j as nat);
            let part = chunk_of(proof, worker_count, c);
            let start = chunk_start(len, worker_count, c);
            assert(links_hold(part));
            assert(link_holds(part, j - start));
        }
    }
    if forall|j: int| #[trigger] link_is_checked(len, worker_count, j) ==> link_holds(proof, j) {
        assert forall|c: nat| c < workers_used(len, worker_count) implies links_hold(
            #[trigger] chunk_of(proof, worker_count, c),
        ) by {
            let part = chunk_of(proof, worker_count, c);
            let start = chunk_start(len, worker_count, c);
            assert(chunk_end(len, worker_count, c) <= len);
            assert forall|t: int| 0 <= t && t + 1 < part.len() implies #[trigger] link_holds(
                part,
                t,
            ) by {
                let j = start + t;
                lemma_chunk_index(len, worker_count, j as nat);
                assert(link_is_checked(len, worker_count, j));
                assert(link_holds(proof, j));
            }
        }
    }
}

/// Round trip: the proof that the prover grows from a seed passes, whatever
/// number of workers checks it, when the reference is the hash of the seed.
pub proof fn lemma_round_trip(seed: Seq<char>, difficulty: nat, worker_count: nat)
    requires
        worker_count >= 1,
    ensures
        outcome(sha256_hex(seed), chain(seed, difficulty), difficulty, worker_count) == Ok::<
            bool,
            VerifyError,
        >(true),
{
    lemma_chain_is_linked(seed, difficulty);
    lemma_verdict_by_links(sha256_hex(seed), chain(seed, difficulty), worker_count);
}

/// Determinism: two proofs of the same difficulty that both have the chain
/// property over the same seed, as every result of the prover has, are equal
/// element by element.
pub proof fn lemma_proofs_agree(
    seed: Seq<char>,
    difficulty: nat,
    first: Seq<Seq<char>>,
    second: Seq<Seq<char>>,
)
    requires
        first.len() == difficulty,
        is_chain_of(seed, first),
        second.len() == difficulty,
        is_chain_of(seed, second),
    ensures
        first == second,
{
    lemma_chain_is_unique(seed, first);
    lemma_chain_is_unique(seed, second);
}

/// The empty proof passes at difficulty zero, whatever the reference is and
/// however many workers are asked for.
pub proof fn lemma_empty_proof_passes(reference: Seq<char>, worker_count: nat)
    requires
        worker_count >= 1,
    ensures
        chain(reference, 0) == Seq::<Seq<char>>::empty(),
        outcome(reference, Seq::<Seq<char>>::empty(), 0, worker_count) == Ok::<bool, VerifyError>(
            true,
        ),
{
    assert(chain(reference, 0) =~= Seq::<Seq<char>>::empty());
    lemma_verdict_by_links(reference, Seq::<Seq<char>>::empty(), worker_count);
}

/// Tamper detection: in a proof that passes, replacing one element that is
/// not the last of its chunk by a different text makes the proof fail.
///
/// The first element of a chunk other than the first chunk is reached by no
/// checked link, so there the change shows only in the link that leaves the
/// element: it is detected unless the new text hashes to the same successor.
pub proof fn lemma_tamper_detected(
    reference: Seq<char>,
    proof: Seq<Seq<char>>,
    worker_count: nat,
    pos: int,
    forged: Seq<char>,
)
    requires
        worker_count >= 1,
        verdict(reference, proof, worker_count),
        0 <= pos < proof.len(),
        forged != proof[pos],
        !ends_chunk(proof.len(), worker_count, pos),
        pos > 0 && begins_chunk(proof.len(), worker_count, pos) ==> sha256_hex(forged) != proof[pos
            + 1],
    ensures
        !verdict(reference, proof.update(pos, forged), worker_count),
{
    let len = proof.len();
    let tampered = proof.update(pos, forged);
    lemma_chunks_tile(len, worker_count);
    lemma_verdict_by_links(reference, proof, worker_count);
    lemma_verdict_by_links(reference, tampered, worker_count);
    lemma_chunk_index(len, worker_count, pos as nat);
    if pos == 0 {
        assert(!anchored(reference, tampered));
    } else if begins_chunk(len, worker_count, pos) {
        assert(link_is_checked(len, worker_count, pos));
        assert(!link_holds(tampered, pos));
    } else {
        let c = chunk_index(len, worker_count, pos as nat);
        lemma_chunk_index(len, worker_count, (pos - 1) as nat);
        assert(chunk_start(len, worker_count, c) <= pos - 1 < chunk_end(len, worker_count, c));
        assert(link_is_checked(len, worker_count, pos - 1));
        assert(link_holds(proof, pos - 1));
        assert(!link_holds(tampered, pos - 1));
    }
}

/// Blind spot: the links into and out of a chunk are not checked. In a proof
/// that passes, the elements of any chunk but the first may be replaced by
/// any run whose own links hold, and the proof still passes.
pub proof fn lemma_chunk_swap_unnoticed(
    reference: Seq<char>,
    proof: Seq<Seq<char>>,
    worker_count: nat,
    swapped: Seq<Seq<char>>,
    index: nat,
)
    requires
        worker_count >= 1,
        verdict(reference, proof, worker_count),
        1 <= index < workers_used(proof.len(), worker_count),
        swapped.len() == proof.len(),
        forall|i: int|
            0 <= i < proof.len() && !(chunk_start(proof.len(), worker_count, index) <= i
                < chunk_end(proof.len(), worker_count, index)) ==> swapped[i] == proof[i],
        links_hold(chunk_of(swapped, worker_count, index)),
    ensures
        verdict(reference, swapped, worker_count),
{
    let len = proof.len();
    lemma_chunks_tile(len, worker_count);
    lemma_chunks_ordered(len, worker_count, 0, index);
    if len > 0 {
        assert(chunk_start(len, worker_count, 0) < chunk_end(len, worker_count, 0));
        assert(swapped[0] == proof[0]);
    }
    assert forall|c: nat| c < workers_used(len, worker_count) implies links_hold(
        #[trigger] chunk_of(swapped, worker_count, c),
    ) by {
        if c != index {
            if c < index {
                lemma_chunks_ordered(len, worker_count, c, index);
            } else {
                lemma_chunks_ordered(len, worker_count, index, c);
            }
            assert(chunk_end(len, worker_count, c) <= len);
            assert(chunk_of(swapped, worker_count, c) =~= chunk_of(proof, worker_count, c));
        }
    }
}

/// Blind spot, for a single element: in a proof that passes, the first
/// element of any chunk but the first may be replaced by any text that
/// leaves the link to its successor in the chunk intact, and the proof still
/// passes, whether or not the element before it hashes to the new text.
pub proof fn lemma_boundary_unchecked(
    reference: Seq<char>,
    proof: Seq<Seq<char>>,
    worker_count: nat,
    index: nat,
    pos: int,
    forged: Seq<char>,
)
    requires
        worker_count >= 1,
        verdict(reference, proof, worker_count),
        1 <= index < workers_used(proof.len(), worker_count),
        pos == chunk_start(proof.len(), worker_count, index),
        pos + 1 < chunk_end(proof.len(), worker_count, index) ==> sha256_hex(forged) == proof[pos
            + 1],
    ensures
        verdict(reference, proof.update(pos, forged), worker_count),
{
    let len = proof.len();
    let swapped = proof.update(pos, forged);
    lemma_chunks_tile(len, worker_count);
    assert(chunk_end(len, worker_count, index) <= len);
    let old_part = chunk_of(proof, worker_count, index);
    let new_part = chunk_of(swapped, worker_count, index);
    assert(links_hold(old_part));
    assert forall|t: int| 0 <= t && t + 1 < new_part.len() implies #[trigger] link_holds(
        new_part,
        t,
    ) by {
        assert(link_holds(old_part, t));
    }
    lemma_chunk_swap_unnoticed(reference, proof, worker_count, swapped, index);
}

} // verus!
