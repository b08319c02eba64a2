//! Helpers on byte buffers that the layouts and the derivations share, and fixtures for
//! trying the engine out.

pub mod test_helpers;

use vstd::prelude::*;

verus! {

/// Appends the bytes of `src` to `dst`.
pub fn append_bytes(dst: &mut Vec<u8>, src: &[u8])
    ensures
        final(dst)@ == old(dst)@ + src@,
{
    let mut i: usize = 0;
    while i < src.len()
        invariant
            i <= src@.len(),
            dst@ == old(dst)@ + src@.subrange(0, i as int),
        decreases src@.len() - i,
    {
        dst.push(src[i]);
        i += 1;
        assert(dst@ =~= old(dst)@ + src@.subrange(0, i as int));
    }
    assert(src@.subrange(0, i as int) =~= src@);
}

/// Appends `count` zero bytes to `dst`.
pub fn append_zeros(dst: &mut Vec<u8>, count: usize)
    ensures
        final(dst)@ == old(dst)@ + Seq::new(count as nat, |i: int| 0u8),
{
    let mut i: usize = 0;
    while i < count
        invariant
            i <= count,
            dst@ == old(dst)@ + Seq::new(i as nat, |k: int| 0u8),
        decreases count - i,
    {
        dst.push(0u8);
        i += 1;
        assert(dst@ =~= old(dst)@ + Seq::new(i as nat, |k: int| 0u8));
    }
}

/// The `N` bytes of `data` that start at `offset`.
pub fn read_array<const N: usize>(data: &[u8], offset: usize) -> (bytes: [u8; N])
    requires
        offset + N <= data@.len(),
    ensures
        bytes@ == data@.subrange(offset as int, offset + N),
{
    let len = data.len();
    let mut bytes = [0u8; N];
    let mut i: usize = 0;
    while i < N
        invariant
            i <= N,
            offset + N <= len,
            len == data@.len(),
            forall|k: int| 0 <= k < i ==> bytes@[k] == data@[offset + k],
        decreases N - i,
    {
        bytes[i] = data[offset + i];
        i += 1;
    }
    assert(bytes@ =~= data@.subrange(offset as int, offset + N));
    bytes
}

/// Whether two byte arrays hold the same bytes.
pub fn arrays_equal<const N: usize>(a: &[u8; N], b: &[u8; N]) -> (equal: bool)
    ensures
        equal == (a@ == b@),
{
    let mut i: usize = 0;
    while i < N
        invariant
            i <= N,
            forall|k: int| 0 <= k < i ==> a@[k] == b@[k],
        decreases N - i,
    {
        if a[i] != b[i] {
            return false;
        }
        i += 1;
    }
    assert(a@ =~= b@);
    true
}

/// `digests` are the `count` digests that lie in `data` from `start` on.
pub open spec fn digests_decode(
    data: Seq<u8>,
    start: int,
    digests: Seq<[u8; 32]>,
    count: nat,
) -> bool {
    &&& digests.len() == count
    &&& forall|i: int|
        0 <= i < count ==> (#[trigger] digests[i])@ == data.subrange(
            start + 32 * i,
            start + 32 * i + 32,
        )
}

/// The bytes of `digests`, one digest after the other.
pub open spec fn flatten(digests: Seq<[u8; 32]>) -> Seq<u8> {
    Seq::new(32 * digests.len(), |i: int| digests[i / 32]@[i % 32])
}

/// Reads `count` digests that lie in `data` from `start` on.
pub fn read_digests(data: &[u8], start: usize, count: usize) -> (digests: Vec<[u8; 32]>)
    requires
        start + 32 * count <= data@.len(),
    ensures
        digests_decode(data@, start as int, digests@, count as nat),
{
    let len = data.len();
    let mut digests: Vec<[u8; 32]> = Vec::new();
    let mut i: usize = 0;
    while i < count
        invariant
            i <= count,
            len == data@.len(),
            start + 32 * count <= len,
            digests_decode(data@, start as int, digests@, i as nat),
        decreases count - i,
    {
        let digest: [u8; 32] = read_array(data, start + 32 * i);
        digests.push(digest);
        i += 1;
    }
    digests
}

/// Reads the `N` digests that lie in `data` from `start` on.
pub fn read_digest_array<const N: usize>(data: &[u8], start: usize) -> (digests: [[u8; 32]; N])
    requires
        start + 32 * N <= data@.len(),
    ensures
        digests_decode(data@, start as int, digests@, N as nat),
{
    let len = data.len();
    let mut digests = [[0u8; 32]; N];
    let mut i: usize = 0;
    while i < N
        invariant
            i <= N,
            len == data@.len(),
            start + 32 * N <= len,
            forall|k: int|
                0 <= k < i ==> (#[trigger] digests@[k])@ == data@.subrange(
                    start + 32 * k,
                    start + 32 * k + 32,
                ),
        decreases N - i,
    {
        let digest: [u8; 32] = read_array(data, start + 32 * i);
        digests[i] = digest;
        i += 1;
    }
    digests
}

/// Appends the bytes of `digests`, one digest after the other, to `dst`.
pub fn append_digests(dst: &mut Vec<u8>, digests: &[[u8; 32]])
    ensures
        final(dst)@ == old(dst)@ + flatten(digests@),
{
    let mut i: usize = 0;
    assert(flatten(digests@.take(0)) =~= Seq::<u8>::empty());
    while i < digests.len()
        invariant
            i <= digests@.len(),
            dst@ == old(dst)@ + flatten(digests@.take(i as int)),
        decreases digests@.len() - i,
    {
        append_bytes(dst, digests[i].as_slice());
        i += 1;
        proof {
            let before = flatten(digests@.take(i - 1));
            let after = flatten(digests@.take(i as int));
            assert(after =~= before + digests@[i - 1]@) by {
                assert forall|k: int| 0 <= k < after.len() implies after[k] == (before
                    + digests@[i - 1]@)[k] by {
                    if k < 32 * (i - 1) {
                        assert(k / 32 < i - 1);
                    } else {
                        assert(k / 32 == i - 1);
                        assert(k % 32 == k - 32 * (i - 1));
                    }
                }
            }
            assert(dst@ =~= old(dst)@ + after);
        }
    }
    assert(digests@.take(i as int) =~= digests@);
}

/// The digests of a flattened run are its 32-byte pieces.
pub proof fn lemma_flatten_decodes(prefix: Seq<u8>, digests: Seq<[u8; 32]>, suffix: Seq<u8>)
    ensures
        digests_decode(
            prefix + flatten(digests) + suffix,
            prefix.len() as int,
            digests,
            digests.len(),
        ),
{
    let data = prefix + flatten(digests) + suffix;
    assert forall|i: int| 0 <= i < digests.len() implies (#[trigger] digests[i])@
        == data.subrange(prefix.len() + 32 * i, prefix.len() + 32 * i + 32) by {
        let piece = data.subrange(prefix.len() + 32 * i, prefix.len() + 32 * i + 32);
        assert forall|k: int| 0 <= k < 32 implies piece[k] == digests[i]@[k] by {
            assert(piece[k] == flatten(digests)[32 * i + k]);
            assert((32 * i + k) / 32 == i);
            assert((32 * i + k) % 32 == k);
        }
        assert(piece =~= digests[i]@);
    }
}

} // verus!
