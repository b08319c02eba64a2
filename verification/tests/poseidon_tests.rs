use solana_privacy_pools::crypto::poseidon::compute_commitment;
use solana_privacy_pools::crypto::poseidon::compute_context;
use solana_privacy_pools::crypto::poseidon::compute_label;
use solana_privacy_pools::crypto::poseidon::compute_nullifier_hash;
use solana_privacy_pools::crypto::poseidon::compute_precommitment;
use solana_privacy_pools::crypto::poseidon::digest_or_zero;
use solana_privacy_pools::crypto::poseidon::hash_four;
use solana_privacy_pools::crypto::poseidon::hash_three;
use solana_privacy_pools::crypto::poseidon::hash_two;
use solana_privacy_pools::crypto::poseidon::keccak_reduced;
use solana_privacy_pools::crypto::poseidon::u64_to_digest;
use solana_privacy_pools::instructions::types::WithdrawalData;
use solana_privacy_pools::state::lean_imt::PoolStateLeanIMT;
use solana_privacy_pools::utils::test_helpers::low_byte_digest;

#[test]
fn poseidon_test_poseidon_hash_two() {
    let left = [1u8; 32];
    let right = [2u8; 32];

    let result = hash_two(&left, &right);

    // Should produce a deterministic hash
    let result2 = hash_two(&left, &right);
    assert_eq!(result, result2);

    // Different inputs should produce different outputs
    let right2 = [3u8; 32];
    let result3 = hash_two(&left, &right2);
    assert_ne!(result, result3);
}

#[test]
fn poseidon_test_commitment_computation() {
    let value = 1000u64;
    let label = [42u8; 32];
    let precommitment = [7u8; 32];

    let commitment = compute_commitment(value, &label, &precommitment);

    // Should be deterministic
    let commitment2 = compute_commitment(value, &label, &precommitment);
    assert_eq!(commitment, commitment2);

    // Different values should produce different commitments
    let commitment3 = compute_commitment(value + 1, &label, &precommitment);
    assert_ne!(commitment, commitment3);
}

#[test]
fn poseidon_test_nullifier_hash() {
    let nullifier = [123u8; 32];

    let hash1 = compute_nullifier_hash(&nullifier);
    let hash2 = compute_nullifier_hash(&nullifier);

    // Should be deterministic
    assert_eq!(hash1, hash2);

    // Different nullifiers should produce different hashes - use more distinct values
    let mut nullifier2 = [0u8; 32];
    nullifier2[0] = 1;
    nullifier2[31] = 255;
    let hash3 = compute_nullifier_hash(&nullifier2);
    assert_ne!(hash1, hash3);

    // Different nullifiers should produce different hashes
    let nullifier3 = [124u8; 32];
    let hash4 = compute_nullifier_hash(&nullifier3);
    assert_ne!(hash1, hash4);
}

#[test]
fn debug_poseidon_integration() {
    let input1 = [123u8; 32];
    let input2 = [0u8; 32];

    let result1 = compute_nullifier_hash(&input1);
    let result2 = compute_nullifier_hash(&input2);

    println!("Input1: {:?}", input1);
    println!("Result1: {:?}", result1);
    println!("Input2: {:?}", input2);
    println!("Result2: {:?}", result2);

    assert_ne!(result1, result2, "Different inputs should produce different hashes");
}

#[test]
fn hash_two_of_one_and_two_is_the_circom_digest() {
    assert_eq!(
        hash_two(&low_byte_digest(1), &low_byte_digest(2)),
        [
            154, 24, 23, 68, 122, 96, 25, 158, 81, 69, 50, 116, 242, 23, 54, 42, 207, 233, 98,
            150, 107, 76, 246, 61, 65, 144, 214, 231, 245, 192, 92, 17
        ]
    );
}

#[test]
fn hash_two_of_ones_and_twos_is_the_known_digest() {
    assert_eq!(
        hash_two(&[1u8; 32], &[2u8; 32]),
        [
            144, 25, 130, 41, 200, 53, 231, 38, 27, 206, 162, 156, 254, 132, 123, 32, 25, 99, 242,
            85, 3, 94, 235, 125, 28, 140, 138, 143, 147, 225, 84, 13
        ]
    );
}

#[test]
fn hash_two_depends_on_the_order_of_its_inputs() {
    assert_ne!(hash_two(&[1u8; 32], &[2u8; 32]), hash_two(&[2u8; 32], &[1u8; 32]));
}

#[test]
fn nullifier_hash_is_poseidon_of_one_input() {
    assert_eq!(
        compute_nullifier_hash(&[1u8; 32]),
        [
            230, 117, 27, 127, 210, 224, 145, 185, 157, 99, 172, 7, 132, 30, 241, 130, 136, 166,
            99, 99, 197, 198, 25, 204, 119, 97, 238, 129, 229, 172, 191, 5
        ]
    );
    assert_eq!(
        compute_nullifier_hash(&low_byte_digest(1)),
        [
            51, 1, 130, 2, 197, 125, 137, 139, 132, 51, 139, 22, 209, 164, 150, 14, 19, 60, 106,
            77, 101, 108, 254, 193, 189, 98, 169, 234, 0, 97, 23, 41
        ]
    );
}

#[test]
fn hash_three_and_four_are_the_circom_digests() {
    let (one, two, three, four) =
        (low_byte_digest(1), low_byte_digest(2), low_byte_digest(3), low_byte_digest(4));
    assert_eq!(
        hash_three(&one, &two, &three),
        [
            50, 215, 54, 171, 52, 223, 37, 247, 104, 185, 197, 157, 38, 14, 35, 243, 2, 99, 171,
            141, 229, 213, 3, 255, 192, 57, 105, 158, 216, 50, 119, 14
        ]
    );
    assert_eq!(
        hash_four(&one, &two, &three, &four),
        [
            101, 4, 37, 101, 223, 37, 165, 186, 61, 102, 224, 28, 187, 14, 230, 55, 152, 11, 81,
            228, 64, 250, 206, 157, 215, 253, 193, 182, 125, 134, 156, 41
        ]
    );
}

#[test]
fn inputs_beyond_the_field_order_are_read_as_their_residues() {
    let all_ones = [255u8; 32];
    let residue = [
        250, 255, 255, 79, 28, 52, 150, 172, 41, 205, 96, 159, 149, 118, 252, 54, 46, 70, 121,
        120, 111, 163, 110, 102, 47, 223, 7, 154, 193, 119, 10, 14,
    ];
    let other = [5u8; 32];
    assert_eq!(hash_two(&all_ones, &other), hash_two(&residue, &other));
    assert_eq!(hash_two(&other, &all_ones), hash_two(&other, &residue));
    assert_ne!(hash_two(&all_ones, &other), [0u8; 32]);
    assert_eq!(compute_nullifier_hash(&all_ones), compute_nullifier_hash(&residue));
}

#[test]
fn digest_or_zero_keeps_a_digest_and_replaces_a_refusal() {
    assert_eq!(digest_or_zero(Some([7u8; 32])), [7u8; 32]);
    assert_eq!(digest_or_zero(None), [0u8; 32]);
}

#[test]
fn value_is_encoded_in_the_low_eight_bytes() {
    let mut expected = [0u8; 32];
    expected[0] = 232;
    expected[1] = 3;
    assert_eq!(u64_to_digest(1000), expected);

    let mut expected = [0u8; 32];
    for byte in expected.iter_mut().take(8) {
        *byte = 255;
    }
    assert_eq!(u64_to_digest(u64::MAX), expected);
    assert_eq!(u64_to_digest(0), [0u8; 32]);
}

#[test]
fn commitment_is_the_hash_of_value_label_and_precommitment() {
    let label = [42u8; 32];
    let precommitment = [7u8; 32];
    assert_eq!(
        compute_commitment(1000, &label, &precommitment),
        hash_three(&u64_to_digest(1000), &label, &precommitment)
    );
    assert_eq!(
        compute_commitment(1, &low_byte_digest(2), &low_byte_digest(3)),
        [
            50, 215, 54, 171, 52, 223, 37, 247, 104, 185, 197, 157, 38, 14, 35, 243, 2, 99, 171,
            141, 229, 213, 3, 255, 192, 57, 105, 158, 216, 50, 119, 14
        ]
    );
}

#[test]
fn precommitment_is_the_hash_of_nullifier_and_secret() {
    assert_eq!(
        compute_precommitment(&[10u8; 32], &[20u8; 32]),
        hash_two(&[10u8; 32], &[20u8; 32])
    );
}

#[test]
fn scope_is_the_unreduced_keccak_of_tag_and_mint() {
    assert_eq!(
        PoolStateLeanIMT::generate_scope(&[3u8; 32]),
        [
            213, 183, 176, 102, 34, 74, 55, 32, 218, 121, 143, 174, 101, 218, 92, 3, 106, 144, 25,
            28, 184, 94, 171, 211, 121, 222, 114, 96, 243, 14, 3, 126
        ]
    );
}

#[test]
fn label_is_the_reduced_keccak_of_scope_and_nonce() {
    let scope = PoolStateLeanIMT::generate_scope(&[3u8; 32]);
    assert_eq!(
        compute_label(&scope, 1),
        [
            70, 119, 142, 131, 19, 238, 81, 173, 123, 186, 115, 170, 59, 109, 214, 25, 117, 6,
            182, 206, 135, 140, 160, 21, 245, 202, 46, 157, 44, 146, 120, 13
        ]
    );
    assert_eq!(
        compute_label(&scope, 2),
        [
            111, 204, 34, 146, 159, 245, 22, 230, 9, 196, 148, 163, 214, 106, 114, 139, 60, 206,
            233, 142, 133, 108, 107, 23, 14, 41, 236, 215, 135, 215, 127, 3
        ]
    );
    assert_eq!(
        compute_label(&[42u8; 32], 123),
        [
            252, 208, 85, 51, 15, 84, 60, 86, 175, 248, 81, 84, 28, 177, 11, 26, 12, 72, 240, 110,
            206, 172, 80, 146, 87, 215, 154, 176, 85, 37, 138, 40
        ]
    );
}

#[test]
fn context_is_the_reduced_keccak_of_tag_processor_data_and_scope() {
    let withdrawal = WithdrawalData { processooor: [10u8; 32], data: vec![1, 2, 3, 4] };
    assert_eq!(
        compute_context(&withdrawal, &[42u8; 32]),
        [
            128, 44, 99, 146, 170, 7, 71, 28, 85, 223, 181, 80, 217, 225, 46, 149, 189, 210, 16,
            42, 177, 157, 201, 163, 105, 195, 45, 183, 40, 156, 181, 26
        ]
    );
}

#[test]
fn context_changes_with_every_byte_of_the_data() {
    let scope = [42u8; 32];
    let data = vec![1u8, 2, 3, 4, 5, 6, 7, 8];
    let base = compute_context(&WithdrawalData { processooor: [10u8; 32], data: data.clone() }, &scope);
    for i in 0..data.len() {
        let mut changed = data.clone();
        changed[i] ^= 1;
        let context =
            compute_context(&WithdrawalData { processooor: [10u8; 32], data: changed }, &scope);
        assert_ne!(context, base);
    }
    let other_processor =
        compute_context(&WithdrawalData { processooor: [11u8; 32], data: data.clone() }, &scope);
    assert_ne!(other_processor, base);
    let longer = compute_context(
        &WithdrawalData { processooor: [10u8; 32], data: vec![1u8, 2, 3, 4, 5, 6, 7, 8, 0] },
        &scope,
    );
    assert_ne!(longer, base);
}

#[test]
fn keccak_reduced_reduces_the_digest_into_the_field() {
    let mut preimage = b"IPrivacyPool.Withdrawal".to_vec();
    preimage.extend_from_slice(&[10u8; 32]);
    preimage.extend_from_slice(&[1, 2, 3, 4]);
    preimage.extend_from_slice(&[42u8; 32]);
    // The unreduced digest begins 131, 44, 99, 98 and exceeds the field order.
    assert_eq!(
        keccak_reduced(&preimage),
        [
            128, 44, 99, 146, 170, 7, 71, 28, 85, 223, 181, 80, 217, 225, 46, 149, 189, 210, 16,
            42, 177, 157, 201, 163, 105, 195, 45, 183, 40, 156, 181, 26
        ]
    );
}
