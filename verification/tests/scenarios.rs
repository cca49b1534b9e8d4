use hash_vdf::prover::solve_with_proof;
use hash_vdf::verification::{try_verify, verify};

#[test]
fn genesis_proof_passes_with_eight_workers() {
    let proof = solve_with_proof(String::from("Genesis string"), 10000);
    assert!(verify(proof[0].clone(), proof.clone(), 10000, 8));
    assert_eq!(try_verify(proof[0].clone(), proof, 10000, 8), Ok(true));
}

#[test]
fn genesis_proof_with_a_replaced_element_fails() {
    let proof = solve_with_proof(String::from("Genesis string"), 10000);
    let mut invalid = proof.clone();
    invalid[998] = String::from("invalid");
    assert!(!verify(invalid[0].clone(), invalid.clone(), 10000, 8));
    assert_eq!(try_verify(invalid[0].clone(), invalid, 10000, 8), Ok(false));
}

#[test]
fn genesis_proof_with_a_foreign_chunk_passes() {
    let proof = solve_with_proof(String::from("Genesis string"), 10000);
    let foreign = solve_with_proof(String::from("another seed"), 1250);
    let mut spliced = proof.clone();
    for i in 0..1250 {
        spliced[1250 + i] = foreign[i].clone();
    }
    assert!(verify(proof[0].clone(), spliced.clone(), 10000, 8));
    assert!(!verify(proof[0].clone(), spliced, 10000, 4));
}
