use vstd::prelude::*;
use vstd::string::StringSliceAdditionalSpecFns;

verus! {

/// The 64-bit FNV-1a hash of `data`, folded from the front with the given offset basis and
/// prime: each byte is xored into the state, which is then multiplied by `prime` modulo 2^64.
pub open spec fn fnv1a_of(data: Seq<u8>, offset: u64, prime: u64) -> u64
    decreases data.len(),
{
    if data.len() == 0 {
        offset
    } else {
        let prev = fnv1a_of(data.drop_last(), offset, prime);
        (((prev ^ (data.last() as u64)) as int * prime as int) % 0x1_0000_0000_0000_0000) as u64
    }
}

/// Calculates the 64-bit FNV-1a hash of a byte slice.
pub fn fnv1a_hash(data: &[u8], offset: u64, prime: u64) -> (r: u64)
    ensures
        r == fnv1a_of(data@, offset, prime),
{
    let mut result: u64 = offset;
    let mut i: usize = 0;
    while i < data.len()
        invariant
            i <= data@.len(),
            result == fnv1a_of(data@.subrange(0, i as int), offset, prime),
        decreases data@.len() - i,
    {
        let byte = data[i];
        proof {
            let next = data@.subrange(0, i + 1);
            assert(next.drop_last() =~= data@.subrange(0, i as int));
        }
        result = (result ^ byte as u64).wrapping_mul(prime);
        i = i + 1;
    }
    assert(data@.subrange(0, data@.len() as int) =~= data@);
    result
}

/// Data that can be hashed with 64-bit FNV-1a.
pub trait HashFnv1a {
    /// The bytes that are hashed.
    spec fn hashed_bytes(&self) -> Seq<u8>;

    /// Creates an FNV-1a hash of this data with the given offset basis and prime.
    fn hash_fnv1a(&self, offset: u64, prime: u64) -> (r: u64)
        ensures
            r == fnv1a_of(self.hashed_bytes(), offset, prime),
    ;
}

impl<'a> HashFnv1a for &'a str {
    open spec fn hashed_bytes(&self) -> Seq<u8> {
        (*self).spec_bytes()
    }

    fn hash_fnv1a(&self, offset: u64, prime: u64) -> (r: u64) {
        fnv1a_hash(self.as_bytes(), offset, prime)
    }
}

impl HashFnv1a for String {
    open spec fn hashed_bytes(&self) -> Seq<u8> {
        vstd::utf8::encode_utf8(self@)
    }

    fn hash_fnv1a(&self, offset: u64, prime: u64) -> (r: u64) {
        fnv1a_hash(self.as_str().as_bytes(), offset, prime)
    }
}

impl<'a> HashFnv1a for &'a [u8] {
    open spec fn hashed_bytes(&self) -> Seq<u8> {
        self@
    }

    fn hash_fnv1a(&self, offset: u64, prime: u64) -> (r: u64) {
        fnv1a_hash(self, offset, prime)
    }
}

} // verus!
