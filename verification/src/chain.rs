//! The mathematical model of a hash chain.
//!
//! A proof is modelled as a sequence of texts, each text a sequence of
//! characters; an executable `Vec<String>` or `[String]` stands for the
//! sequence that its `deep_view` gives.

use vstd::prelude::*;
use crate::hash::sha256_hex;

verus! {

/// The hash primitive applied `times` times in a row, starting from `seed`.
pub open spec fn iterate(seed: Seq<char>, times: nat) -> Seq<char>
    decreases times,
{
    if times == 0 {
        seed
    } else {
        sha256_hex(iterate(seed, (times - 1) as nat))
    }
}

/// The proof of `difficulty` steps over `seed`: element `i` is the hash
/// primitive applied `i + 1` times to the seed.
pub open spec fn chain(seed: Seq<char>, difficulty: nat) -> Seq<Seq<char>> {
    Seq::new(difficulty, |i: int| iterate(seed, (i + 1) as nat))
}

/// Element `j + 1` of `run` is the hash of element `j`.
pub open spec fn link_holds(run: Seq<Seq<char>>, j: int) -> bool {
    sha256_hex(run[j]) == run[j + 1]
}

/// Every pair of neighbours in `run` is linked by the hash primitive. A run
/// of fewer than two elements has no pair and so passes.
pub open spec fn links_hold(run: Seq<Seq<char>>) -> bool {
    forall|j: int| 0 <= j && j + 1 < run.len() ==> #[trigger] link_holds(run, j)
}

/// The chain property: `run` starts with the hash of `seed`, and each of its
/// elements hashes to the next.
pub open spec fn is_chain_of(seed: Seq<char>, run: Seq<Seq<char>>) -> bool {
    &&& run.len() > 0 ==> run[0] == sha256_hex(seed)
    &&& links_hold(run)
}

/// The chain grown from a seed has the chain property.
pub proof fn lemma_chain_is_linked(seed: Seq<char>, difficulty: nat)
    ensures
        chain(seed, difficulty).len() == difficulty,
        is_chain_of(seed, chain(seed, difficulty)),
{
    let c = chain(seed, difficulty);
    if difficulty > 0 {
        assert(iterate(seed, 1) == sha256_hex(iterate(seed, 0)));
    }
    assert forall|j: int| 0 <= j && j + 1 < c.len() implies #[trigger] link_holds(c, j) by {
        assert(c[j + 1] == iterate(seed, (j + 2) as nat));
        assert(c[j] == iterate(seed, (j + 1) as nat));
    }
}

/// In a run with the chain property, the element at `pos` is the seed hashed
/// `pos + 1` times.
pub proof fn lemma_chain_element(seed: Seq<char>, run: Seq<Seq<char>>, pos: nat)
    requires
        is_chain_of(seed, run),
        pos < run.len(),
    ensures
        run[pos as int] == iterate(seed, pos + 1),
    decreases pos,
{
    if pos == 0 {
        assert(iterate(seed, 1) == sha256_hex(iterate(seed, 0)));
    } else {
        lemma_chain_element(seed, run, (pos - 1) as nat);
        assert(link_holds(run, pos - 1));
    }
}

/// The chain property leaves no choice: a run that has it is the chain grown
/// from the seed.
pub proof fn lemma_chain_is_unique(seed: Seq<char>, run: Seq<Seq<char>>)
    requires
        is_chain_of(seed, run),
    ensures
        run == chain(seed, run.len()),
{
    assert forall|i: int| 0 <= i < run.len() implies run[i] == chain(seed, run.len())[i] by {
        lemma_chain_element(seed, run, i as nat);
    }
    assert(run =~= chain(seed, run.len()));
}

} // verus!
