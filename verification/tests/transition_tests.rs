use solana_privacy_pools::crypto::poseidon::compute_commitment;
use solana_privacy_pools::crypto::poseidon::compute_context;
use solana_privacy_pools::crypto::poseidon::compute_label;
use solana_privacy_pools::crypto::poseidon::hash_two;
use solana_privacy_pools::crypto::poseidon::u64_to_digest;
use solana_privacy_pools::error::PoolError;
use solana_privacy_pools::instructions::deposit::deposit;
use solana_privacy_pools::instructions::initialize::initialize_pool;
use solana_privacy_pools::instructions::process_instruction;
use solana_privacy_pools::instructions::ragequit::ragequit;
use solana_privacy_pools::instructions::types::PrivacyPoolInstruction;
use solana_privacy_pools::instructions::types::RagequitProofData;
use solana_privacy_pools::instructions::types::WithdrawProofData;
use solana_privacy_pools::instructions::types::WithdrawalData;
use solana_privacy_pools::instructions::wind_down::wind_down;
use solana_privacy_pools::instructions::withdraw::withdraw;
use solana_privacy_pools::state::lean_imt::PoolStateLeanIMT;
use solana_privacy_pools::state::zero_copy::DepositorStateZC;
use solana_privacy_pools::state::zero_copy::NullifierStateZC;
use solana_privacy_pools::utils::test_helpers::low_byte_digest;

const CREATOR: [u8; 32] = [1u8; 32];
const ENTRYPOINT: [u8; 32] = [2u8; 32];
const MINT: [u8; 32] = [3u8; 32];
const ALICE: [u8; 32] = [20u8; 32];
const BOB: [u8; 32] = [21u8; 32];
const PROCESSOR: [u8; 32] = [10u8; 32];

fn pool_with_depth(max_tree_depth: u8) -> PoolStateLeanIMT {
    let mut pool = PoolStateLeanIMT::new();
    initialize_pool(&mut pool, &CREATOR, true, ENTRYPOINT, max_tree_depth, MINT).unwrap();
    pool
}

fn deposit_as(pool: &mut PoolStateLeanIMT, who: [u8; 32], value: u64, precommitment: [u8; 32]) -> DepositorStateZC {
    let mut record = None;
    deposit(pool, &mut record, &who, true, who, value, precommitment).unwrap();
    record.unwrap()
}

fn withdrawal() -> WithdrawalData {
    WithdrawalData { processooor: PROCESSOR, data: vec![1, 2, 3, 4] }
}

fn withdraw_proof(pool: &PoolStateLeanIMT, state_root: [u8; 32], new_commitment: [u8; 32], nullifier_hash: [u8; 32]) -> WithdrawProofData {
    WithdrawProofData {
        proof_a: [1u8; 64],
        proof_b: [2u8; 128],
        proof_c: [3u8; 64],
        public_signals: vec![
            u64_to_digest(400),
            state_root,
            low_byte_digest(20),
            [201u8; 32],
            low_byte_digest(20),
            compute_context(&withdrawal(), &pool.scope),
            new_commitment,
            nullifier_hash,
        ],
    }
}

fn ragequit_proof(label: [u8; 32], nullifier_hash: [u8; 32]) -> RagequitProofData {
    RagequitProofData {
        proof_a: [4u8; 64],
        proof_b: [5u8; 128],
        proof_c: [6u8; 64],
        public_signals: vec![u64_to_digest(1000), label, [51u8; 32], nullifier_hash],
    }
}

#[test]
fn initialization_sets_every_field() {
    let pool = pool_with_depth(20);
    assert_eq!(pool.is_initialized, 1);
    assert_eq!(pool.authority, CREATOR);
    assert_eq!(pool.asset_mint, MINT);
    assert_eq!(pool.entrypoint, ENTRYPOINT);
    assert_eq!(pool.withdrawal_verifier, [0u8; 32]);
    assert_eq!(pool.scope, PoolStateLeanIMT::generate_scope(&MINT));
    assert_eq!(pool.nonce, 0);
    assert_eq!(pool.is_dead, 0);
    assert_eq!(pool.max_tree_depth, 20);
    assert_eq!(pool.roots, [[0u8; 32]; 64]);
    assert_eq!(pool.current_root_index, 0);
    assert_eq!((pool.state_tree.size, pool.state_tree.depth), (0, 0));
    assert_eq!((pool.asp_tree.size, pool.asp_tree.depth), (0, 0));
    assert_eq!(pool.get_state_root(), [0u8; 32]);
    assert_eq!(pool.get_asp_root(), [0u8; 32]);
    assert!(pool.is_valid());
}

#[test]
fn initialization_checks_signature_then_depth_then_state() {
    let fresh = PoolStateLeanIMT::new();

    let mut pool = fresh;
    assert_eq!(
        initialize_pool(&mut pool, &CREATOR, false, ENTRYPOINT, 0, MINT),
        Err(PoolError::MissingSignature)
    );
    assert_eq!(pool, fresh);

    for depth in [0u8, 33, 255] {
        let mut pool = fresh;
        assert_eq!(
            initialize_pool(&mut pool, &CREATOR, true, ENTRYPOINT, depth, MINT),
            Err(PoolError::InvalidArgument)
        );
        assert_eq!(pool, fresh);
    }
    for depth in [1u8, 32] {
        let mut pool = fresh;
        assert_eq!(initialize_pool(&mut pool, &CREATOR, true, ENTRYPOINT, depth, MINT), Ok(()));
    }

    let mut pool = pool_with_depth(20);
    let before = pool;
    assert_eq!(
        initialize_pool(&mut pool, &BOB, true, BOB, 0, BOB),
        Err(PoolError::InvalidArgument)
    );
    assert_eq!(
        initialize_pool(&mut pool, &BOB, true, BOB, 5, BOB),
        Err(PoolError::AlreadyInitialized)
    );
    assert_eq!(pool, before);
}

#[test]
fn deposit_then_withdraw_happy_path() {
    let mut pool = pool_with_depth(20);
    let precommitment = [7u8; 32];
    let record = deposit_as(&mut pool, ALICE, 1_000, precommitment);

    assert_eq!(pool.nonce, 1);
    let label = compute_label(&pool.scope, 1);
    let commitment = compute_commitment(1_000, &label, &precommitment);
    assert_eq!(record, DepositorStateZC { depositor: ALICE, label });
    assert_eq!(pool.get_state_root(), commitment);
    assert!(pool.is_known_root(&commitment));
    assert_eq!(pool.get_asp_root(), label);
    assert_eq!(pool.get_state_depth(), 0);
    assert_eq!(pool.get_asp_depth(), 0);
    assert_eq!(pool.roots[0], commitment);
    assert_eq!(pool.current_root_index, 1);
    assert!(pool.is_valid());

    let new_commitment = [33u8; 32];
    let nullifier_hash = [44u8; 32];
    let proof = withdraw_proof(&pool, commitment, new_commitment, nullifier_hash);
    let mut nullifier = None;
    assert_eq!(
        withdraw(&mut pool, &mut nullifier, &PROCESSOR, true, &withdrawal(), &proof, true),
        Ok(())
    );
    assert_eq!(nullifier, Some(NullifierStateZC { is_spent: 1, nullifier_hash }));
    assert_eq!(pool.state_tree.size, 2);
    assert_eq!(pool.get_state_root(), hash_two(&commitment, &new_commitment));
    assert!(pool.is_known_root(&pool.get_state_root()));
    assert!(pool.is_known_root(&commitment));
    assert_eq!(pool.nonce, 1);
    assert_eq!(pool.asp_tree.size, 1);
    assert!(pool.is_valid());
}

#[test]
fn three_deposits_build_a_tree_of_depth_two() {
    let mut pool = pool_with_depth(20);
    let values = [10u64, 20, 30];
    let precommitments = [[11u8; 32], [12u8; 32], [13u8; 32]];
    let mut commitments = Vec::new();
    let mut labels = Vec::new();
    for i in 0..3 {
        let record = deposit_as(&mut pool, ALICE, values[i], precommitments[i]);
        let label = compute_label(&pool.scope, (i + 1) as u64);
        assert_eq!(record.label, label);
        labels.push(label);
        commitments.push(compute_commitment(values[i], &label, &precommitments[i]));
    }
    assert_eq!(pool.nonce, 3);
    assert_eq!(pool.state_tree.depth, 2);
    assert_eq!(
        pool.get_state_root(),
        hash_two(&hash_two(&commitments[0], &commitments[1]), &commitments[2])
    );
    assert_eq!(pool.get_asp_root(), hash_two(&hash_two(&labels[0], &labels[1]), &labels[2]));
    assert_eq!(pool.roots[0], commitments[0]);
    assert_eq!(pool.roots[1], hash_two(&commitments[0], &commitments[1]));
    assert_eq!(pool.roots[2], pool.get_state_root());
}

#[test]
fn equal_deposits_get_different_labels_and_commitments() {
    let mut pool = pool_with_depth(20);
    let first = deposit_as(&mut pool, ALICE, 5, [7u8; 32]);
    let root_one = pool.get_state_root();
    let second = deposit_as(&mut pool, ALICE, 5, [7u8; 32]);
    assert_eq!(pool.nonce, 2);
    assert_ne!(first.label, second.label);
    let commitment_two = compute_commitment(5, &second.label, &[7u8; 32]);
    assert_ne!(root_one, commitment_two);
    assert_eq!(pool.get_state_root(), hash_two(&root_one, &commitment_two));
}

#[test]
fn deposit_checks_signature_depositor_and_life_in_that_order() {
    let mut pool = pool_with_depth(20);
    let before = pool;
    let mut record = None;

    assert_eq!(
        deposit(&mut pool, &mut record, &ALICE, false, BOB, 1, [7u8; 32]),
        Err(PoolError::MissingSignature)
    );
    assert_eq!(
        deposit(&mut pool, &mut record, &ALICE, true, BOB, 1, [7u8; 32]),
        Err(PoolError::InvalidArgument)
    );
    assert_eq!((pool, record), (before, None));

    let mut blank = PoolStateLeanIMT::new();
    assert_eq!(
        deposit(&mut blank, &mut record, &ALICE, true, ALICE, 1, [7u8; 32]),
        Err(PoolError::NotInitialized)
    );
    assert_eq!(blank, PoolStateLeanIMT::new());
}

#[test]
fn withdrawal_with_wrong_context_changes_nothing() {
    let mut pool = pool_with_depth(20);
    deposit_as(&mut pool, ALICE, 1_000, [7u8; 32]);
    let root = pool.get_state_root();
    let mut proof = withdraw_proof(&pool, root, [33u8; 32], [44u8; 32]);
    proof.public_signals[5][0] ^= 1;

    let before = pool;
    let mut nullifier = None;
    assert_eq!(
        withdraw(&mut pool, &mut nullifier, &PROCESSOR, true, &withdrawal(), &proof, true),
        Err(PoolError::ContextMismatch)
    );
    assert_eq!(pool, before);
    assert_eq!(nullifier, None);

    // The context binds the scope too: the same proof is refused by the pool of another asset.
    let mut other = PoolStateLeanIMT::new();
    initialize_pool(&mut other, &CREATOR, true, ENTRYPOINT, 20, [4u8; 32]).unwrap();
    other.add_root(root);
    let proof = withdraw_proof(&pool, root, [33u8; 32], [44u8; 32]);
    assert_eq!(
        withdraw(&mut other, &mut nullifier, &PROCESSOR, true, &withdrawal(), &proof, true),
        Err(PoolError::ContextMismatch)
    );
}

#[test]
fn withdrawal_against_a_root_beyond_the_window_is_refused() {
    let mut pool = pool_with_depth(20);
    let mut roots = Vec::new();
    for i in 0..65u8 {
        deposit_as(&mut pool, ALICE, 1, [i; 32]);
        roots.push(pool.get_state_root());
    }
    assert_eq!(pool.current_root_index, 65);
    assert!(!pool.is_known_root(&roots[0]));
    for root in &roots[1..] {
        assert!(pool.is_known_root(root));
    }

    let before = pool;
    let mut nullifier = None;
    let stale = withdraw_proof(&pool, roots[0], [33u8; 32], [44u8; 32]);
    assert_eq!(
        withdraw(&mut pool, &mut nullifier, &PROCESSOR, true, &withdrawal(), &stale, true),
        Err(PoolError::UnknownRoot)
    );
    assert_eq!((pool, nullifier), (before, None));

    let recent = withdraw_proof(&pool, roots[1], [33u8; 32], [44u8; 32]);
    assert_eq!(
        withdraw(&mut pool, &mut nullifier, &PROCESSOR, true, &withdrawal(), &recent, true),
        Ok(())
    );
}

#[test]
fn second_withdrawal_with_the_same_proof_is_a_double_spend() {
    let mut pool = pool_with_depth(20);
    deposit_as(&mut pool, ALICE, 1_000, [7u8; 32]);
    let proof = withdraw_proof(&pool, pool.get_state_root(), [33u8; 32], [44u8; 32]);
    let mut nullifier = None;
    assert_eq!(
        withdraw(&mut pool, &mut nullifier, &PROCESSOR, true, &withdrawal(), &proof, true),
        Ok(())
    );

    let before = (pool, nullifier);
    assert_eq!(
        withdraw(&mut pool, &mut nullifier, &PROCESSOR, true, &withdrawal(), &proof, true),
        Err(PoolError::NullifierSpent)
    );
    assert_eq!((pool, nullifier), before);

    // A ragequit on the same nullifier is barred as well.
    let label = compute_label(&pool.scope, 1);
    let record = Some(DepositorStateZC { depositor: ALICE, label });
    assert_eq!(
        ragequit(&pool, &record, &mut nullifier, &ALICE, true, &ragequit_proof(label, [44u8; 32]), true),
        Err(PoolError::NullifierSpent)
    );
    assert_eq!(nullifier, before.1);
}

#[test]
fn wound_down_pool_refuses_deposits_and_still_pays_out() {
    let mut pool = pool_with_depth(20);
    deposit_as(&mut pool, ALICE, 1_000, [7u8; 32]);
    assert_eq!(wind_down(&mut pool, &ENTRYPOINT, true), Ok(()));
    assert_eq!(pool.is_dead, 1);

    let before = pool;
    let mut record = None;
    assert_eq!(
        deposit(&mut pool, &mut record, &ALICE, true, ALICE, 1, [8u8; 32]),
        Err(PoolError::PoolDead)
    );
    assert_eq!((pool, record), (before, None));

    let proof = withdraw_proof(&pool, pool.get_state_root(), [33u8; 32], [44u8; 32]);
    let mut nullifier = None;
    assert_eq!(
        withdraw(&mut pool, &mut nullifier, &PROCESSOR, true, &withdrawal(), &proof, true),
        Ok(())
    );
    let label = compute_label(&pool.scope, 1);
    let record = Some(DepositorStateZC { depositor: ALICE, label });
    let mut other_nullifier = None;
    assert_eq!(
        ragequit(&pool, &record, &mut other_nullifier, &ALICE, true, &ragequit_proof(label, [45u8; 32]), true),
        Ok(())
    );
}

#[test]
fn wind_down_is_for_the_entrypoint_alone_and_only_once() {
    let mut pool = pool_with_depth(20);
    let before = pool;
    assert_eq!(wind_down(&mut pool, &ENTRYPOINT, false), Err(PoolError::MissingSignature));
    assert_eq!(wind_down(&mut pool, &CREATOR, true), Err(PoolError::InvalidArgument));
    assert_eq!(pool, before);
    assert_eq!(wind_down(&mut pool, &ENTRYPOINT, true), Ok(()));
    let dead = pool;
    assert_eq!(wind_down(&mut pool, &ENTRYPOINT, true), Err(PoolError::PoolDead));
    assert_eq!(pool, dead);

    let mut blank = PoolStateLeanIMT::new();
    assert_eq!(wind_down(&mut blank, &[0u8; 32], true), Err(PoolError::NotInitialized));
}

#[test]
fn ragequit_is_for_the_original_depositor() {
    let mut pool = pool_with_depth(20);
    let record = Some(deposit_as(&mut pool, ALICE, 1_000, [7u8; 32]));
    let label = compute_label(&pool.scope, 1);
    let proof = ragequit_proof(label, [44u8; 32]);
    let before = pool;

    let mut nullifier = None;
    assert_eq!(
        ragequit(&pool, &record, &mut nullifier, &BOB, true, &proof, true),
        Err(PoolError::NotOriginalDepositor)
    );
    assert_eq!(nullifier, None);

    assert_eq!(ragequit(&pool, &record, &mut nullifier, &ALICE, true, &proof, true), Ok(()));
    assert_eq!(nullifier, Some(NullifierStateZC { is_spent: 1, nullifier_hash: [44u8; 32] }));
    assert_eq!(pool, before);
}

#[test]
fn ragequit_checks_signature_record_nullifier_and_proof_in_that_order() {
    let mut pool = pool_with_depth(20);
    let record = Some(deposit_as(&mut pool, ALICE, 1_000, [7u8; 32]));
    let label = compute_label(&pool.scope, 1);
    let proof = ragequit_proof(label, [44u8; 32]);
    let spent = Some(NullifierStateZC { is_spent: 1, nullifier_hash: [44u8; 32] });
    let mut nullifier = spent;

    assert_eq!(
        ragequit(&pool, &None, &mut nullifier, &BOB, false, &proof, false),
        Err(PoolError::MissingSignature)
    );
    assert_eq!(
        ragequit(&pool, &None, &mut nullifier, &ALICE, true, &proof, false),
        Err(PoolError::NotOriginalDepositor)
    );
    let other_label = Some(DepositorStateZC { depositor: ALICE, label: [9u8; 32] });
    assert_eq!(
        ragequit(&pool, &other_label, &mut nullifier, &ALICE, true, &proof, false),
        Err(PoolError::NotOriginalDepositor)
    );
    assert_eq!(
        ragequit(&pool, &record, &mut nullifier, &ALICE, true, &proof, false),
        Err(PoolError::NullifierSpent)
    );
    assert_eq!(nullifier, spent);

    let mut nullifier = None;
    assert_eq!(
        ragequit(&pool, &record, &mut nullifier, &ALICE, true, &proof, false),
        Err(PoolError::InvalidProof)
    );
    assert_eq!(nullifier, None);

    let mut short = ragequit_proof(label, [44u8; 32]);
    short.public_signals.pop();
    assert_eq!(
        ragequit(&pool, &record, &mut nullifier, &ALICE, true, &short, true),
        Err(PoolError::InvalidInstructionData)
    );
    assert_eq!(
        ragequit(&PoolStateLeanIMT::new(), &record, &mut nullifier, &ALICE, true, &proof, true),
        Err(PoolError::NotInitialized)
    );
}

#[test]
fn fifth_deposit_into_a_pool_of_depth_two_finds_the_tree_full() {
    let mut pool = pool_with_depth(2);
    for i in 0..4u8 {
        deposit_as(&mut pool, ALICE, 1, [i; 32]);
    }
    assert_eq!(pool.state_tree.size, 4);
    assert_eq!(pool.state_tree.depth, 2);

    let before = pool;
    let mut record = None;
    assert_eq!(
        deposit(&mut pool, &mut record, &ALICE, true, ALICE, 1, [9u8; 32]),
        Err(PoolError::TreeFull)
    );
    assert_eq!((pool, record), (before, None));
    assert_eq!(pool.insert_state_commitment([1u8; 32]), Err(PoolError::TreeFull));
    assert_eq!(pool.insert_asp_label([1u8; 32]), Err(PoolError::TreeFull));
    assert_eq!(pool, before);

    let proof = withdraw_proof(&pool, pool.get_state_root(), [33u8; 32], [44u8; 32]);
    let mut proof = proof;
    proof.public_signals[2] = low_byte_digest(2);
    proof.public_signals[4] = low_byte_digest(2);
    let mut nullifier = None;
    assert_eq!(
        withdraw(&mut pool, &mut nullifier, &PROCESSOR, true, &withdrawal(), &proof, true),
        Err(PoolError::TreeFull)
    );
    assert_eq!((pool, nullifier), (before, None));
}

#[test]
fn withdrawal_checks_come_in_their_order() {
    let mut pool = pool_with_depth(20);
    deposit_as(&mut pool, ALICE, 1_000, [7u8; 32]);
    let root = pool.get_state_root();
    let before = pool;
    let good = withdraw_proof(&pool, root, [33u8; 32], [44u8; 32]);
    let spent = Some(NullifierStateZC { is_spent: 1, nullifier_hash: [44u8; 32] });

    // Everything wrong at once: the processor is named first.
    let mut bad = withdraw_proof(&pool, [9u8; 32], [33u8; 32], [44u8; 32]);
    bad.public_signals[5] = [0u8; 32];
    bad.public_signals[2] = low_byte_digest(21);
    let mut nullifier = spent;
    assert_eq!(
        withdraw(&mut pool, &mut nullifier, &BOB, false, &withdrawal(), &bad, false),
        Err(PoolError::InvalidProcessor)
    );
    assert_eq!(
        withdraw(&mut pool, &mut nullifier, &PROCESSOR, false, &withdrawal(), &bad, false),
        Err(PoolError::MissingSignature)
    );
    assert_eq!(
        withdraw(&mut pool, &mut nullifier, &PROCESSOR, true, &withdrawal(), &bad, false),
        Err(PoolError::ContextMismatch)
    );
    bad.public_signals[5] = good.public_signals[5];
    assert_eq!(
        withdraw(&mut pool, &mut nullifier, &PROCESSOR, true, &withdrawal(), &bad, false),
        Err(PoolError::InvalidDepth)
    );
    bad.public_signals[2] = low_byte_digest(20);
    bad.public_signals[4] = low_byte_digest(21);
    assert_eq!(
        withdraw(&mut pool, &mut nullifier, &PROCESSOR, true, &withdrawal(), &bad, false),
        Err(PoolError::InvalidDepth)
    );
    bad.public_signals[4] = low_byte_digest(20);
    assert_eq!(
        withdraw(&mut pool, &mut nullifier, &PROCESSOR, true, &withdrawal(), &bad, false),
        Err(PoolError::UnknownRoot)
    );
    assert_eq!(
        withdraw(&mut pool, &mut nullifier, &PROCESSOR, true, &withdrawal(), &good, false),
        Err(PoolError::NullifierSpent)
    );
    assert_eq!(nullifier, spent);
    let mut nullifier = None;
    assert_eq!(
        withdraw(&mut pool, &mut nullifier, &PROCESSOR, true, &withdrawal(), &good, false),
        Err(PoolError::InvalidProof)
    );
    assert_eq!((pool, nullifier), (before, None));

    let mut short = withdraw_proof(&pool, root, [33u8; 32], [44u8; 32]);
    short.public_signals.pop();
    assert_eq!(
        withdraw(&mut pool, &mut nullifier, &PROCESSOR, true, &withdrawal(), &short, true),
        Err(PoolError::InvalidInstructionData)
    );
    let mut blank = PoolStateLeanIMT::new();
    assert_eq!(
        withdraw(&mut blank, &mut nullifier, &PROCESSOR, true, &withdrawal(), &good, true),
        Err(PoolError::NotInitialized)
    );
}

#[test]
fn the_all_zero_root_is_known_until_the_window_has_turned() {
    let mut pool = pool_with_depth(20);
    assert!(pool.is_known_root(&[0u8; 32]));
    for i in 0..63u8 {
        pool.add_root([i + 1; 32]);
    }
    assert!(pool.is_known_root(&[0u8; 32]));
    pool.add_root([64u8; 32]);
    assert!(!pool.is_known_root(&[0u8; 32]));
    for i in 0..64u8 {
        assert!(pool.is_known_root(&[i + 1; 32]));
    }
    pool.add_root([65u8; 32]);
    assert!(!pool.is_known_root(&[1u8; 32]));
    assert_eq!(pool.roots[0], [65u8; 32]);
    assert_eq!(pool.current_root_index, 65);

    pool.current_root_index = u64::MAX;
    pool.add_root([66u8; 32]);
    assert_eq!(pool.roots[63], [66u8; 32]);
    assert_eq!(pool.current_root_index, 0);
}

#[test]
fn instructions_are_routed_to_their_transitions() {
    let mut pool = PoolStateLeanIMT::new();
    let mut depositor = None;
    let mut nullifier = None;

    let init = PrivacyPoolInstruction::InitializePool {
        entrypoint_authority: ENTRYPOINT,
        max_tree_depth: 20,
        asset_mint: MINT,
    };
    assert_eq!(
        process_instruction(init, &mut pool, &mut depositor, &mut nullifier, &CREATOR, true, false),
        Ok(())
    );
    assert_eq!(pool, pool_with_depth(20));

    let make_deposit = PrivacyPoolInstruction::Deposit {
        depositor: ALICE,
        value: 1_000,
        precommitment_hash: [7u8; 32],
    };
    assert_eq!(
        process_instruction(make_deposit, &mut pool, &mut depositor, &mut nullifier, &ALICE, true, false),
        Ok(())
    );
    let label = compute_label(&pool.scope, 1);
    assert_eq!(depositor, Some(DepositorStateZC { depositor: ALICE, label }));
    assert_eq!(nullifier, None);

    let failed = PrivacyPoolInstruction::Ragequit { proof_data: ragequit_proof(label, [44u8; 32]) };
    let before = pool;
    assert_eq!(
        process_instruction(failed, &mut pool, &mut depositor, &mut nullifier, &BOB, true, true),
        Err(PoolError::NotOriginalDepositor)
    );
    assert_eq!((pool, nullifier), (before, None));

    let make_withdrawal = PrivacyPoolInstruction::Withdraw {
        withdrawal_data: withdrawal(),
        proof_data: withdraw_proof(&pool, pool.get_state_root(), [33u8; 32], [44u8; 32]),
    };
    assert_eq!(
        process_instruction(make_withdrawal, &mut pool, &mut depositor, &mut nullifier, &PROCESSOR, true, true),
        Ok(())
    );
    assert_eq!(nullifier, Some(NullifierStateZC { is_spent: 1, nullifier_hash: [44u8; 32] }));
    assert_eq!(pool.state_tree.size, 2);

    let quit = PrivacyPoolInstruction::Ragequit { proof_data: ragequit_proof(label, [45u8; 32]) };
    let mut other_nullifier = None;
    assert_eq!(
        process_instruction(quit, &mut pool, &mut depositor, &mut other_nullifier, &ALICE, true, true),
        Ok(())
    );
    assert_eq!(other_nullifier, Some(NullifierStateZC { is_spent: 1, nullifier_hash: [45u8; 32] }));

    assert_eq!(
        process_instruction(
            PrivacyPoolInstruction::WindDown,
            &mut pool,
            &mut depositor,
            &mut nullifier,
            &ENTRYPOINT,
            true,
            false
        ),
        Ok(())
    );
    assert_eq!(pool.is_dead, 1);
}

#[test]
fn validity_of_the_pool_record_ties_nonce_to_labels() {
    let mut pool = pool_with_depth(20);
    deposit_as(&mut pool, ALICE, 1, [7u8; 32]);
    assert!(pool.is_valid());
    let mut broken = pool;
    broken.nonce = 5;
    assert!(!broken.is_valid());
    let mut broken = pool;
    broken.max_tree_depth = 0;
    assert!(!broken.is_valid());
    let mut broken = pool;
    broken.max_tree_depth = 33;
    assert!(!broken.is_valid());
    let mut broken = pool;
    broken.state_tree.depth = 7;
    assert!(!broken.is_valid());
    assert!(PoolStateLeanIMT::new().is_valid());
}

#[test]
fn records_are_marked_by_their_setters() {
    let mut nullifier = NullifierStateZC::new();
    assert!(!nullifier.is_spent());
    nullifier.set_spent([5u8; 32]);
    assert!(nullifier.is_spent());
    assert_eq!(nullifier, NullifierStateZC { is_spent: 1, nullifier_hash: [5u8; 32] });

    let mut depositor = DepositorStateZC::new();
    assert_eq!(depositor, DepositorStateZC { depositor: [0u8; 32], label: [0u8; 32] });
    depositor.set(ALICE, [6u8; 32]);
    assert_eq!(depositor, DepositorStateZC { depositor: ALICE, label: [6u8; 32] });
}

#[test]
fn pool_record_answers_for_its_fields() {
    let mut pool = PoolStateLeanIMT::new();
    assert!(!pool.is_initialized());
    assert!(!pool.is_dead());
    pool = pool_with_depth(20);
    assert!(pool.is_initialized());
    assert!(!pool.is_dead());
    assert_eq!(pool.get_entrypoint_authority(), ENTRYPOINT);
    assert_eq!(pool.get_asset_mint(), MINT);
    assert!(!pool.is_state_tree_full());
    assert!(!pool.is_asp_tree_full());

    let before = pool;
    pool.set_dead(true);
    assert!(pool.is_dead());
    assert_eq!(pool.is_dead, 1);
    pool.set_dead(false);
    assert_eq!(pool, before);
}
