//! The obfuscation layer: a repeating-key XOR over the whole file buffer,
//! applied before any structured access, and the signature check that tells a
//! correctly de-obfuscated container apart from garbage.

use vstd::prelude::*;

verus! {

/// The fixed whole-file XOR key; one published key works for every file of
/// the format.
pub const EMK_KEY: u64 = 0xAFF24C9CE9EA9943;

/// The key's eight bytes in big-endian order; byte `i` of the buffer is
/// combined with byte `i % 8` of this sequence.
pub open spec fn key_bytes_be(key: u64) -> Seq<u8> {
    seq![
        (key >> 56) as u8,
        (key >> 48) as u8,
        (key >> 40) as u8,
        (key >> 32) as u8,
        (key >> 24) as u8,
        (key >> 16) as u8,
        (key >> 8) as u8,
        key as u8,
    ]
}

/// Pointwise XOR of a buffer with the cyclically repeated key bytes.
pub open spec fn xor_with_key(data: Seq<u8>, key: u64) -> Seq<u8> {
    Seq::new(data.len(), |i: int| data[i] ^ key_bytes_be(key)[i % 8])
}

/// The five bytes every de-obfuscated container starts with.
pub open spec fn signature() -> Seq<u8> {
    seq![0x2eu8, 0x53u8, 0x46u8, 0x44u8, 0x53u8]
}

/// Whether a buffer begins with the container signature.
pub open spec fn has_signature(data: Seq<u8>) -> bool {
    data.len() >= 5 && data.subrange(0, 5) == signature()
}

/// Applies the repeating-key XOR to the whole buffer.  The transformation is
/// its own inverse: the same call both obfuscates and de-obfuscates.
pub fn xor(data: Vec<u8>, key: u64) -> (r: Vec<u8>)
    ensures
        r@ == xor_with_key(data@, key),
{
    let key_vec: [u8; 8] = [
        (key >> 56) as u8,
        (key >> 48) as u8,
        (key >> 40) as u8,
        (key >> 32) as u8,
        (key >> 24) as u8,
        (key >> 16) as u8,
        (key >> 8) as u8,
        key as u8,
    ];
    proof {
        assert(key_vec@ =~= key_bytes_be(key));
    }
    let mut data = data;
    let ghost orig: Seq<u8> = data@;
    let mut i: usize = 0;
    while i < data.len()
        invariant
            i <= data@.len(),
            data@.len() == orig.len(),
            key_vec@ =~= key_bytes_be(key),
            forall|j: int| 0 <= j < i ==> data@[j] == orig[j] ^ key_bytes_be(key)[j % 8],
            forall|j: int| i <= j < orig.len() ==> data@[j] == orig[j],
        decreases data@.len() - i,
    {
        let b = data[i];
        let masked = b ^ key_vec[i % 8];
        data.set(i, masked);
        i = i + 1;
    }
    proof {
        assert(data@ =~= xor_with_key(orig, key));
    }
    data
}

/// The obfuscation is an involution: applying it twice with the same key
/// gives back the original buffer, for every buffer and every key.
pub proof fn lemma_xor_involution(data: Seq<u8>, key: u64)
    ensures
        xor_with_key(xor_with_key(data, key), key) == data,
{
    assert forall|j: int| 0 <= j < data.len() implies xor_with_key(
        xor_with_key(data, key),
        key,
    )[j] == data[j] by {
        let k = key_bytes_be(key)[j % 8];
        let d = data[j];
        assert((d ^ k) ^ k == d) by (bit_vector);
    }
    assert(xor_with_key(xor_with_key(data, key), key) =~= data);
}

/// Tests a de-obfuscated buffer for the container signature.
pub fn check_signature(data: &Vec<u8>) -> (r: bool)
    ensures
        r == has_signature(data@),
{
    if data.len() < 5 {
        return false;
    }
    let ok = data[0] == 0x2e && data[1] == 0x53 && data[2] == 0x46 && data[3] == 0x44
        && data[4] == 0x53;
    proof {
        if ok {
            assert(data@.subrange(0, 5) =~= signature());
        } else {
            assert(data@.subrange(0, 5)[0] == data@[0]);
            assert(data@.subrange(0, 5)[1] == data@[1]);
            assert(data@.subrange(0, 5)[2] == data@[2]);
            assert(data@.subrange(0, 5)[3] == data@[3]);
            assert(data@.subrange(0, 5)[4] == data@[4]);
        }
    }
    ok
}

} // verus!
