//! How a proof is cut into chunks, one for each worker.
//!
//! All chunks but the last have the same length, the proof's length divided
//! by the number of workers and rounded down; the last chunk also takes what
//! the division leaves over. A worker count above the proof's length would
//! make that length zero, so such a request is served by a single worker.

use vstd::prelude::*;
use crate::error::VerifyError;

verus! {

/// A contiguous range of positions of a proof, `start` included and `end`
/// excluded, that one worker checks.
#[derive(Clone, Copy, Debug, PartialEq, Eq, Structural)]
pub struct Chunk {
    pub start: usize,
    pub end: usize,
}

/// The number of workers that a proof of `len` elements is cut for when
/// `worker_count` are asked for: one, if more workers than elements are
/// asked for, and else as many as asked.
pub open spec fn workers_used(len: nat, worker_count: nat) -> nat {
    if worker_count > len {
        1
    } else {
        worker_count
    }
}

/// The length of every chunk but the last.
pub open spec fn chunk_len(len: nat, worker_count: nat) -> nat {
    len / workers_used(len, worker_count)
}

/// The position at which chunk `index` begins.
pub open spec fn chunk_start(len: nat, worker_count: nat, index: nat) -> nat {
    index * chunk_len(len, worker_count)
}

/// The position just past chunk `index`. The last chunk runs to the end of
/// the proof.
pub open spec fn chunk_end(len: nat, worker_count: nat, index: nat) -> nat {
    if index + 1 == workers_used(len, worker_count) {
        len
    } else {
        (index + 1) * chunk_len(len, worker_count)
    }
}

/// `chunks` is the cut of a proof of `len` elements for `worker_count`
/// workers: one chunk per worker used, in order.
pub open spec fn is_partition(chunks: Seq<Chunk>, len: nat, worker_count: nat) -> bool {
    &&& chunks.len() == workers_used(len, worker_count)
    &&& forall|c: int|
        0 <= c < chunks.len() ==> {
            &&& (#[trigger] chunks[c]).start == chunk_start(len, worker_count, c as nat)
            &&& chunks[c].end == chunk_end(len, worker_count, c as nat)
        }
}

/// The chunks tile the proof: the first begins at position zero, each one
/// begins where the one before it ends, and the last ends with the proof.
/// All but the last have the common length, the last has that length and
/// the remainder of the division, and in a proof that is not empty no chunk
/// is empty.
pub proof fn lemma_chunks_tile(len: nat, worker_count: nat)
    requires
        worker_count >= 1,
    ensures
        1 <= workers_used(len, worker_count) <= worker_count,
        len >= 1 ==> chunk_len(len, worker_count) >= 1,
        chunk_start(len, worker_count, 0) == 0,
        chunk_end(len, worker_count, (workers_used(len, worker_count) - 1) as nat) == len,
        forall|c: nat|
            c + 1 < workers_used(len, worker_count) ==> #[trigger] chunk_end(len, worker_count, c)
                == chunk_start(len, worker_count, c + 1),
        forall|c: nat|
            c < workers_used(len, worker_count) ==> chunk_start(len, worker_count, c)
                <= #[trigger] chunk_end(len, worker_count, c) <= len,
        forall|c: nat|
            c < workers_used(len, worker_count) && len >= 1 ==> chunk_start(len, worker_count, c)
                < #[trigger] chunk_end(len, worker_count, c),
        forall|c: nat|
            c + 1 < workers_used(len, worker_count) ==> #[trigger] chunk_end(len, worker_count, c)
                - chunk_start(len, worker_count, c) == chunk_len(len, worker_count),
        chunk_end(len, worker_count, (workers_used(len, worker_count) - 1) as nat) - chunk_start(
            len,
            worker_count,
            (workers_used(len, worker_count) - 1) as nat,
        ) == chunk_len(len, worker_count) + len % workers_used(len, worker_count),
{
    let w = workers_used(len, worker_count);
    let q = chunk_len(len, worker_count);
    assert(w * q <= len && (len >= w ==> q >= 1) && len == w * q + len % w && (w - 1) * q == w * q
        - q) by (nonlinear_arith)
        requires
            w >= 1,
            q == len / w,
    ;
    assert forall|c: nat| c < w implies chunk_start(len, worker_count, c) <= #[trigger] chunk_end(
        len,
        worker_count,
        c,
    ) <= len && (len >= 1 ==> chunk_start(len, worker_count, c) < chunk_end(len, worker_count, c)) by {
        assert(c * q <= (c + 1) * q <= w * q && (q >= 1 ==> c * q < (c + 1) * q)) by (nonlinear_arith)
            requires
                c + 1 <= w,
        ;
    }
    assert forall|c: nat| c + 1 < w implies #[trigger] chunk_end(len, worker_count, c)
        - chunk_start(len, worker_count, c) == q by {
        assert((c + 1) * q - c * q == q) by (nonlinear_arith);
    }
}

/// The index of the chunk that position `pos` of the proof falls in.
pub open spec fn chunk_index(len: nat, worker_count: nat, pos: nat) -> nat {
    let last = (workers_used(len, worker_count) - 1) as nat;
    let quotient = pos / chunk_len(len, worker_count);
    if quotient < last {
        quotient
    } else {
        last
    }
}

/// Chunks come in the order of their indices and do not overlap: an earlier
/// chunk ends before a later one begins.
pub proof fn lemma_chunks_ordered(len: nat, worker_count: nat, earlier: nat, later: nat)
    requires
        worker_count >= 1,
        earlier < later < workers_used(len, worker_count),
    ensures
        chunk_end(len, worker_count, earlier) <= chunk_start(len, worker_count, later),
{
    let q = chunk_len(len, worker_count);
    assert((earlier + 1) * q <= later * q) by (nonlinear_arith)
        requires
            earlier + 1 <= later,
    ;
}

/// Every position of the proof lies in the chunk that `chunk_index` names,
/// and in no other.
pub proof fn lemma_chunk_index(len: nat, worker_count: nat, pos: nat)
    requires
        worker_count >= 1,
        pos < len,
    ensures
        chunk_index(len, worker_count, pos) < workers_used(len, worker_count),
        chunk_start(len, worker_count, chunk_index(len, worker_count, pos)) <= pos < chunk_end(
            len,
            worker_count,
            chunk_index(len, worker_count, pos),
        ),
        forall|c: nat|
            c < workers_used(len, worker_count) && chunk_start(len, worker_count, c) <= pos
                < #[trigger] chunk_end(len, worker_count, c) ==> c == chunk_index(
                len,
                worker_count,
                pos,
            ),
{
    lemma_chunks_tile(len, worker_count);
    let w = workers_used(len, worker_count);
    let q = chunk_len(len, worker_count);
    let last = (w - 1) as nat;
    let quotient = pos / q;
    let home = chunk_index(len, worker_count, pos);
    assert(quotient * q <= pos < (quotient + 1) * q) by (nonlinear_arith)
        requires
            q >= 1,
            quotient == pos / q,
    ;
    if quotient >= last {
        assert(last * q <= quotient * q) by (nonlinear_arith)
            requires
                last <= quotient,
        ;
    }
    assert forall|c: nat|
        c < w && chunk_start(len, worker_count, c) <= pos < #[trigger] chunk_end(
            len,
            worker_count,
            c,
        ) implies c == home by {
        if c < home {
            lemma_chunks_ordered(len, worker_count, c, home);
        } else if home < c {
            lemma_chunks_ordered(len, worker_count, home, c);
        }
    }
}

/// Cuts a proof of `proof_len` elements into the chunks that its workers
/// check.
///
/// Nothing is cut for a request that cannot be served: one without workers,
/// and else one whose proof is not as long as `difficulty` says.
pub fn plan_chunks(proof_len: usize, difficulty: u64, worker_count: usize) -> (plan: Result<
    Vec<Chunk>,
    VerifyError,
>)
    ensures
        worker_count == 0 ==> plan == Err::<Vec<Chunk>, VerifyError>(VerifyError::NoWorkers),
        worker_count > 0 && proof_len != difficulty ==> plan == Err::<Vec<Chunk>, VerifyError>(
            VerifyError::LengthMismatch,
        ),
        worker_count > 0 && proof_len == difficulty ==> plan is Ok && is_partition(
            plan->Ok_0@,
            proof_len as nat,
            worker_count as nat,
        ),
        plan is Ok ==> forall|c: int|
            0 <= c < plan->Ok_0.len() ==> (#[trigger] plan->Ok_0[c]).start <= plan->Ok_0[c].end
                <= proof_len,
{
    if worker_count == 0 {
        return Err(VerifyError::NoWorkers);
    }
    if proof_len as u64 != difficulty {
        return Err(VerifyError::LengthMismatch);
    }
    let workers: usize = if worker_count > proof_len {
        1
    } else {
        worker_count
    };
    let size: usize = proof_len / workers;
    proof {
        lemma_chunks_tile(proof_len as nat, worker_count as nat);
    }
    let mut chunks: Vec<Chunk> = Vec::new();
    let mut index: usize = 0;
    while index < workers
        invariant
            worker_count >= 1,
            workers == workers_used(proof_len as nat, worker_count as nat),
            size == chunk_len(proof_len as nat, worker_count as nat),
            index <= workers,
            chunks.len() == index,
            forall|c: nat|
                c < workers ==> #[trigger] chunk_end(proof_len as nat, worker_count as nat, c)
                    <= proof_len,
            forall|c: int|
                0 <= c < index ==> {
                    &&& (#[trigger] chunks[c]).start == chunk_start(
                        proof_len as nat,
                        worker_count as nat,
                        c as nat,
                    )
                    &&& chunks[c].end == chunk_end(proof_len as nat, worker_count as nat, c as nat)
                },
        decreases workers - index,
    {
        proof {
            let c = index as nat;
            assert(chunk_end(proof_len as nat, worker_count as nat, c) <= proof_len);
            assert(c * size <= (c + 1) * size) by (nonlinear_arith);
            assert((c + 1) * size == c * size + size) by (nonlinear_arith);
            if index + 1 != workers {
                assert((c + 1) * size <= proof_len);
            } else {
                assert(c * size <= workers * size <= proof_len) by (nonlinear_arith)
                    requires
                        c <= workers,
                        size == proof_len as nat / workers as nat,
                        workers >= 1,
                ;
            }
        }
        let start: usize = index * size;
        let end: usize = if index + 1 == workers {
            proof_len
        } else {
            start + size
        };
        chunks.push(Chunk { start, end });
        index = index + 1;
    }
    Ok(chunks)
}

} // verus!
