//! Poseidon and Keccak derivations over the BN254 scalar field.
//!
//! A digest is a buffer of 32 bytes. Where a digest stands for a field element it is read as
//! a little-endian integer and reduced by the field's order; a canonical element is its own
//! reduction.

use crate::constants::snark_scalar_field;
use crate::instructions::types::WithdrawalData;
use crate::utils::append_bytes;
use ark_ff::BigInteger;
use ark_ff::PrimeField;
use solana_program::poseidon::Endianness;
use solana_program::poseidon::Parameters;
use vstd::bytes::spec_u64_to_le_bytes;
use vstd::bytes::u64_to_le_bytes;
use vstd::prelude::*;

verus! {

/// The Keccak-256 digest of a byte string.
pub uninterp spec fn keccak256(data: Seq<u8>) -> Seq<u8>;

/// The outcome of the circom-compatible Poseidon hash over BN254 on little-endian inputs:
/// the little-endian digest, or nothing where the hasher turns the inputs down.
pub uninterp spec fn poseidon_bn254(inputs: Seq<Seq<u8>>) -> Option<Seq<u8>>;

/// `256^n`.
pub open spec fn pow256(n: nat) -> nat
    decreases n,
{
    if n == 0 {
        1
    } else {
        256 * pow256((n - 1) as nat)
    }
}

/// The integer that a byte string spells in little-endian order.
pub open spec fn le_value(bytes: Seq<u8>) -> nat
    decreases bytes.len(),
{
    if bytes.len() == 0 {
        0
    } else {
        bytes[0] as nat + 256 * le_value(bytes.drop_first())
    }
}

/// The `len` low bytes of `n` in little-endian order.
pub open spec fn le_bytes(n: nat, len: nat) -> Seq<u8> {
    Seq::new(len, |i: int| ((n / pow256(i as nat)) % 256) as u8)
}

/// The canonical digest of the field element that `bytes` stands for.
pub open spec fn field_reduce(bytes: Seq<u8>) -> Seq<u8> {
    le_bytes(le_value(bytes) % snark_scalar_field(), 32)
}

/// The digest of 32 zero bytes.
pub open spec fn zero_digest() -> Seq<u8> {
    Seq::new(32, |i: int| 0u8)
}

/// The 32-byte little-endian encoding of a 64-bit value.
pub open spec fn le256(value: u64) -> Seq<u8> {
    spec_u64_to_le_bytes(value) + Seq::new(24, |i: int| 0u8)
}

/// The bytes of each digest.
pub open spec fn digest_views(digests: Seq<[u8; 32]>) -> Seq<Seq<u8>> {
    digests.map_values(|d: [u8; 32]| d@)
}

/// What `digest_or_zero` makes of the hasher's outcome.
pub open spec fn outcome_digest(outcome: Option<Seq<u8>>) -> Seq<u8> {
    match outcome {
        Some(d) => d,
        None => zero_digest(),
    }
}

/// Poseidon over digests read as field elements.
pub open spec fn spec_poseidon(inputs: Seq<Seq<u8>>) -> Seq<u8> {
    outcome_digest(poseidon_bn254(inputs.map_values(|x: Seq<u8>| field_reduce(x))))
}

/// Poseidon of two digests.
pub open spec fn spec_hash_two(left: Seq<u8>, right: Seq<u8>) -> Seq<u8> {
    spec_poseidon(seq![left, right])
}

/// Poseidon of three digests.
pub open spec fn spec_hash_three(a: Seq<u8>, b: Seq<u8>, c: Seq<u8>) -> Seq<u8> {
    spec_poseidon(seq![a, b, c])
}

/// Poseidon of four digests.
pub open spec fn spec_hash_four(a: Seq<u8>, b: Seq<u8>, c: Seq<u8>, d: Seq<u8>) -> Seq<u8> {
    spec_poseidon(seq![a, b, c, d])
}

/// The Keccak-256 digest of `data`, read as a little-endian integer and reduced into the
/// field.
pub open spec fn spec_keccak_reduced(data: Seq<u8>) -> Seq<u8> {
    field_reduce(keccak256(data))
}

/// `keccak(scope ++ LE64(nonce))`, reduced into the field.
pub open spec fn spec_compute_label(scope: Seq<u8>, nonce: u64) -> Seq<u8> {
    spec_keccak_reduced(scope + spec_u64_to_le_bytes(nonce))
}

/// The commitment: Poseidon of the value as a digest, the label and the precommitment.
pub open spec fn spec_compute_commitment(
    value: u64,
    label: Seq<u8>,
    precommitment_hash: Seq<u8>,
) -> Seq<u8> {
    spec_hash_three(le256(value), label, precommitment_hash)
}

/// The nullifier hash: Poseidon of the nullifier alone.
pub open spec fn spec_compute_nullifier_hash(nullifier: Seq<u8>) -> Seq<u8> {
    spec_poseidon(seq![nullifier])
}

/// The precommitment: Poseidon of nullifier and secret.
pub open spec fn spec_compute_precommitment(nullifier: Seq<u8>, secret: Seq<u8>) -> Seq<u8> {
    spec_hash_two(nullifier, secret)
}

/// The ASCII bytes of `IPrivacyPool.Withdrawal`, which open the preimage of a context.
pub open spec fn withdrawal_tag() -> Seq<u8> {
    seq![
        73u8, 80u8, 114u8, 105u8, 118u8, 97u8, 99u8, 121u8, 80u8, 111u8, 111u8, 108u8, 46u8,
        87u8, 105u8, 116u8, 104u8, 100u8, 114u8, 97u8, 119u8, 97u8, 108u8,
    ]
}

/// `keccak(tag ++ processor ++ data ++ scope)`, reduced into the field.
pub open spec fn spec_compute_context(
    processooor: Seq<u8>,
    data: Seq<u8>,
    scope: Seq<u8>,
) -> Seq<u8> {
    spec_keccak_reduced(withdrawal_tag() + processooor + data + scope)
}

/// Calls `solana_program::keccak::hash` and takes the bytes of its result. The contract
/// claims that the result is the Keccak-256 digest of `data`, a function of `data` alone.
#[verifier::external_body]
pub(crate) fn keccak256_digest(data: &Vec<u8>) -> (digest: [u8; 32])
    ensures
        digest@ == keccak256(data@),
{
    solana_program::keccak::hash(data.as_slice()).to_bytes()
}

/// Calls `solana_program::poseidon::hashv` with the BN254 parameters and little-endian
/// byte order. The contract claims only that the outcome, digest or refusal, is a function
/// of the inputs' bytes; it does not say on which inputs the hasher refuses.
#[verifier::external_body]
pub(crate) fn poseidon_hashv(inputs: &Vec<[u8; 32]>) -> (outcome: Option<[u8; 32]>)
    ensures
        match outcome {
            Some(d) => poseidon_bn254(digest_views(inputs@)) == Some(d@),
            None => poseidon_bn254(digest_views(inputs@)) is None,
        },
{
    let mut slices: Vec<&[u8]> = Vec::new();
    for input in inputs.iter() {
        slices.push(input.as_slice());
    }
    match solana_program::poseidon::hashv(Parameters::Bn254X5, Endianness::LittleEndian, &slices) {
        Ok(hash) => Some(hash.to_bytes()),
        Err(_) => None,
    }
}

/// Calls `ark_ff::PrimeField::from_le_bytes_mod_order` at `ark_bn254::Fr` and writes the
/// element back as 32 little-endian bytes. The contract claims what the function's
/// documentation says: the bytes are read as a little-endian integer and reduced by the
/// field's order.
#[verifier::external_body]
pub(crate) fn reduce_mod_order(bytes: &[u8; 32]) -> (reduced: [u8; 32])
    ensures
        reduced@ == field_reduce(bytes@),
{
    let element = ark_bn254::Fr::from_le_bytes_mod_order(bytes);
    let repr = element.into_bigint().to_bytes_le();
    let mut reduced = [0u8; 32];
    reduced.copy_from_slice(&repr[..32]);
    reduced
}

/// The digest that the hasher gave, or the all-zero digest where it gave none.
pub fn digest_or_zero(outcome: Option<[u8; 32]>) -> (digest: [u8; 32])
    ensures
        outcome matches Some(d) ==> digest == d,
        outcome is None ==> digest@ == zero_digest(),
{
    match outcome {
        Some(d) => d,
        None => {
            let zero = [0u8; 32];
            assert(zero@ =~= zero_digest());
            zero
        },
    }
}

/// Poseidon over the given digests, each read as a field element.
fn poseidon_digest(inputs: &Vec<[u8; 32]>) -> (digest: [u8; 32])
    ensures
        digest@ == spec_poseidon(digest_views(inputs@)),
{
    let mut reduced: Vec<[u8; 32]> = Vec::new();
    let mut i: usize = 0;
    while i < inputs.len()
        invariant
            i <= inputs@.len(),
            reduced@.len() == i,
            forall|k: int| 0 <= k < i ==> (#[trigger] reduced@[k])@ == field_reduce(inputs@[k]@),
        decreases inputs@.len() - i,
    {
        reduced.push(reduce_mod_order(&inputs[i]));
        i += 1;
    }
    assert(digest_views(reduced@) =~= digest_views(inputs@).map_values(
        |x: Seq<u8>| field_reduce(x),
    ));
    digest_or_zero(poseidon_hashv(&reduced))
}

/// Poseidon hash of two digests.
pub fn hash_two(left: &[u8; 32], right: &[u8; 32]) -> (digest: [u8; 32])
    ensures
        digest@ == spec_hash_two(left@, right@),
{
    let mut inputs: Vec<[u8; 32]> = Vec::new();
    inputs.push(*left);
    inputs.push(*right);
    assert(digest_views(inputs@) =~= seq![left@, right@]);
    poseidon_digest(&inputs)
}

/// Poseidon hash of three digests.
pub fn hash_three(a: &[u8; 32], b: &[u8; 32], c: &[u8; 32]) -> (digest: [u8; 32])
    ensures
        digest@ == spec_hash_three(a@, b@, c@),
{
    let mut inputs: Vec<[u8; 32]> = Vec::new();
    inputs.push(*a);
    inputs.push(*b);
    inputs.push(*c);
    assert(digest_views(inputs@) =~= seq![a@, b@, c@]);
    poseidon_digest(&inputs)
}

/// Poseidon hash of four digests.
pub fn hash_four(a: &[u8; 32], b: &[u8; 32], c: &[u8; 32], d: &[u8; 32]) -> (digest: [u8; 32])
    ensures
        digest@ == spec_hash_four(a@, b@, c@, d@),
{
    let mut inputs: Vec<[u8; 32]> = Vec::new();
    inputs.push(*a);
    inputs.push(*b);
    inputs.push(*c);
    inputs.push(*d);
    assert(digest_views(inputs@) =~= seq![a@, b@, c@, d@]);
    poseidon_digest(&inputs)
}

/// The Keccak-256 digest of `data`, reduced into the field.
pub fn keccak_reduced(data: &Vec<u8>) -> (digest: [u8; 32])
    ensures
        digest@ == spec_keccak_reduced(data@),
{
    let hash = keccak256_digest(data);
    reduce_mod_order(&hash)
}

/// The label of the deposit with the given nonce in the pool with the given scope.
pub fn compute_label(scope: &[u8; 32], nonce: u64) -> (label: [u8; 32])
    ensures
        label@ == spec_compute_label(scope@, nonce),
{
    let mut preimage: Vec<u8> = Vec::new();
    append_bytes(&mut preimage, scope.as_slice());
    let nonce_bytes = u64_to_le_bytes(nonce);
    append_bytes(&mut preimage, nonce_bytes.as_slice());
    assert(preimage@ =~= scope@ + spec_u64_to_le_bytes(nonce));
    keccak_reduced(&preimage)
}

/// The 32-byte little-endian encoding of `value`.
pub fn u64_to_digest(value: u64) -> (digest: [u8; 32])
    ensures
        digest@ == le256(value),
{
    let low = u64_to_le_bytes(value);
    proof {
        vstd::bytes::lemma_auto_spec_u64_to_from_le_bytes();
    }
    let mut digest = [0u8; 32];
    let mut i: usize = 0;
    while i < 8
        invariant
            i <= 8,
            low@ == spec_u64_to_le_bytes(value),
            low@.len() == 8,
            forall|k: int| 0 <= k < i ==> digest@[k] == low@[k],
            forall|k: int| i <= k < 32 ==> digest@[k] == 0u8,
        decreases 8 - i,
    {
        digest[i] = low[i];
        i += 1;
    }
    assert(digest@ =~= le256(value));
    digest
}

/// The commitment to a value under a label and a precommitment.
pub fn compute_commitment(
    value: u64,
    label: &[u8; 32],
    precommitment_hash: &[u8; 32],
) -> (commitment: [u8; 32])
    ensures
        commitment@ == spec_compute_commitment(value, label@, precommitment_hash@),
{
    let value_bytes = u64_to_digest(value);
    hash_three(&value_bytes, label, precommitment_hash)
}

/// The hash under which a nullifier is published when it is spent.
pub fn compute_nullifier_hash(nullifier: &[u8; 32]) -> (hash: [u8; 32])
    ensures
        hash@ == spec_compute_nullifier_hash(nullifier@),
{
    let mut inputs: Vec<[u8; 32]> = Vec::new();
    inputs.push(*nullifier);
    assert(digest_views(inputs@) =~= seq![nullifier@]);
    poseidon_digest(&inputs)
}

/// The precommitment that blinds a nullifier with a secret.
pub fn compute_precommitment(nullifier: &[u8; 32], secret: &[u8; 32]) -> (precommitment: [u8; 32])
    ensures
        precommitment@ == spec_compute_precommitment(nullifier@, secret@),
{
    hash_two(nullifier, secret)
}

/// The context that binds a withdrawal's processor and auxiliary data to a pool's scope.
pub fn compute_context(withdrawal: &WithdrawalData, scope: &[u8; 32]) -> (context: [u8; 32])
    ensures
        context@ == spec_compute_context(withdrawal.processooor@, withdrawal.data@, scope@),
{
    let tag: [u8; 23] = [
        73, 80, 114, 105, 118, 97, 99, 121, 80, 111, 111, 108, 46, 87, 105, 116, 104, 100, 114,
        97, 119, 97, 108,
    ];
    assert(tag@ =~= withdrawal_tag());
    let mut preimage: Vec<u8> = Vec::new();
    append_bytes(&mut preimage, tag.as_slice());
    append_bytes(&mut preimage, withdrawal.processooor.as_slice());
    append_bytes(&mut preimage, withdrawal.data.as_slice());
    append_bytes(&mut preimage, scope.as_slice());
    assert(preimage@ =~= withdrawal_tag() + withdrawal.processooor@ + withdrawal.data@ + scope@);
    keccak_reduced(&preimage)
}

} // verus!
