use hash_vdf::prover::solve_with_proof;

#[test]
fn one_step_is_the_digest_of_the_seed() {
    let proof = solve_with_proof(String::from("abc"), 1);
    assert_eq!(
        proof,
        vec![String::from(
            "ba7816bf8f01cfea414140de5dae2223b00361a396177a9cb410ff61f20015ad"
        )]
    );
}

#[test]
fn empty_seed_is_hashed_like_any_other() {
    let proof = solve_with_proof(String::new(), 2);
    assert_eq!(
        proof,
        vec![
            String::from("e3b0c44298fc1c149afbf4c8996fb92427ae41e4649b934ca495991b7852b855"),
            String::from("cd372fb85148700fa88095e3492d3f9f5beb43e555e5ff26d95f5a6adc36f8e6"),
        ]
    );
}

#[test]
fn each_step_hashes_the_digest_before_it() {
    let proof = solve_with_proof(String::from("hello"), 3);
    assert_eq!(
        proof,
        vec![
            String::from("2cf24dba5fb0a30e26e83b2ac5b9e29e1b161e5c1fa7425e73043362938b9824"),
            String::from("d7914fe546b684688bb95f4f888a92dfc680603a75f23eb823658031fff766d9"),
            String::from("ecd26292b7f02970ca6909abb23e1aedd0dd57d0ee9ff40bf3f30c325e3e453a"),
        ]
    );
}

#[test]
fn seed_outside_ascii_is_hashed_by_its_utf8_bytes() {
    let proof = solve_with_proof(String::from("π"), 1);
    assert_eq!(
        proof[0],
        "2617fcb92baa83a96341de050f07a3186657090881eae6b833f66a035600f35a"
    );
}

#[test]
fn zero_difficulty_gives_the_empty_proof() {
    assert!(solve_with_proof(String::from("Genesis string"), 0).is_empty());
    assert!(solve_with_proof(String::new(), 0).is_empty());
}

#[test]
fn proof_has_one_element_per_step() {
    for difficulty in [1u64, 2, 3, 17, 100] {
        let proof = solve_with_proof(String::from("seed"), difficulty);
        assert_eq!(proof.len() as u64, difficulty);
    }
}

#[test]
fn every_digest_has_sixty_four_hex_digits() {
    for digest in solve_with_proof(String::from("Genesis string"), 20) {
        assert_eq!(digest.len(), 64);
        assert!(digest
            .chars()
            .all(|c| c.is_ascii_digit() || ('a'..='f').contains(&c)));
    }
}

#[test]
fn same_inputs_give_the_same_proof() {
    let first = solve_with_proof(String::from("Genesis string"), 200);
    let second = solve_with_proof(String::from("Genesis string"), 200);
    assert_eq!(first, second);
}

#[test]
fn different_seeds_give_different_proofs() {
    let first = solve_with_proof(String::from("a"), 3);
    let second = solve_with_proof(String::from("b"), 3);
    assert_ne!(first[0], second[0]);
    assert_ne!(first[2], second[2]);
}

#[test]
fn shorter_proof_is_a_prefix_of_the_longer() {
    let short = solve_with_proof(String::from("Genesis string"), 10);
    let long = solve_with_proof(String::from("Genesis string"), 25);
    assert_eq!(short[..], long[..10]);
}

#[test]
fn proof_has_the_chain_property() {
    let seed = String::from("Genesis string");
    let proof = solve_with_proof(seed.clone(), 50);
    assert_eq!(proof[0], sha256::digest(seed));
    assert_eq!(
        proof[0],
        "257c0cd7d1e5c9e8be39344583c5f08446cd0ba2537cc5ee4cfa7afae8f7a1ef"
    );
    for i in 0..proof.len() - 1 {
        assert_eq!(sha256::digest(proof[i].as_str()), proof[i + 1]);
    }
}

#[test]
fn ten_thousand_steps_end_in_the_known_digest() {
    let proof = solve_with_proof(String::from("Genesis string"), 10000);
    assert_eq!(proof.len(), 10000);
    assert_eq!(
        proof[9999],
        "ce2dbfa29f1fe3da247cb9c4dab575fd8ac7ba0b02ef724583dd372e920d9229"
    );
}
