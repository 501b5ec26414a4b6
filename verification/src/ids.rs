use vstd::bytes::{
    lemma_auto_spec_u64_to_from_le_bytes, spec_u64_from_le_bytes, spec_u64_to_le_bytes,
    u64_from_le_bytes, u64_to_le_bytes,
};
use vstd::prelude::*;

verus! {

/// A 32-byte opaque account address, held as four 64-bit words.
///
/// The words are the four little-endian 8-byte groups of the address, in
/// order, so `id_byte_seq` below reproduces the raw address bytes exactly.
#[derive(Clone, Copy, PartialEq, Eq, Structural, Debug, Hash)]
pub struct Identity {
    pub w0: u64,
    pub w1: u64,
    pub w2: u64,
    pub w3: u64,
}

/// The all-zero address, which marks a voter account whose owner has not
/// been recorded yet.
pub open spec fn zero_identity() -> Identity {
    Identity { w0: 0, w1: 0, w2: 0, w3: 0 }
}

impl Identity {
    /// The all-zero address, used to mark a voter account whose owner has
    /// not been recorded yet.
    pub fn zero() -> (r: Identity)
        ensures
            r == zero_identity(),
    {
        Identity { w0: 0, w1: 0, w2: 0, w3: 0 }
    }
}

/// The 32 raw bytes of an address: the little-endian bytes of its four
/// words, in word order.
pub open spec fn id_byte_seq(id: Identity) -> Seq<u8> {
    spec_u64_to_le_bytes(id.w0) + spec_u64_to_le_bytes(id.w1) + spec_u64_to_le_bytes(id.w2)
        + spec_u64_to_le_bytes(id.w3)
}

/// Produces the 32 raw bytes of an address.
pub fn identity_to_bytes(id: &Identity) -> (r: Vec<u8>)
    ensures
        r@ == id_byte_seq(*id),
        r@.len() == 32,
{
    let mut r = u64_to_le_bytes(id.w0);
    let mut b1 = u64_to_le_bytes(id.w1);
    let mut b2 = u64_to_le_bytes(id.w2);
    let mut b3 = u64_to_le_bytes(id.w3);
    r.append(&mut b1);
    r.append(&mut b2);
    r.append(&mut b3);
    r
}

/// Whether `x` occurs in `v`.
pub fn contains_identity(v: &Vec<Identity>, x: Identity) -> (r: bool)
    ensures
        r == v@.contains(x),
{
    let mut i: usize = 0;
    while i < v.len()
        invariant
            i <= v@.len(),
            forall|j: int| 0 <= j < i ==> v@[j] != x,
        decreases v@.len() - i,
    {
        if v[i].w0 == x.w0 && v[i].w1 == x.w1 && v[i].w2 == x.w2 && v[i].w3 == x.w3 {
            assert(v@[i as int] == x);
            return true;
        }
        i += 1;
    }
    false
}

/// Whether two byte strings hold exactly the same bytes.
pub fn bytes_eq(a: &Vec<u8>, b: &Vec<u8>) -> (r: bool)
    ensures
        r == (a@ == b@),
{
    if a.len() != b.len() {
        return false;
    }
    let mut i: usize = 0;
    while i < a.len()
        invariant
            i <= a@.len(),
            a@.len() == b@.len(),
            forall|j: int| 0 <= j < i ==> a@[j] == b@[j],
        decreases a@.len() - i,
    {
        if a[i] != b[i] {
            return false;
        }
        i += 1;
    }
    proof {
        assert(a@ =~= b@);
    }
    true
}

/// The byte of `s` at `i`, or zero past the end.
pub open spec fn byte_or_zero(s: Seq<u8>, i: int) -> u8 {
    if 0 <= i < s.len() {
        s[i]
    } else {
        0
    }
}

/// `s` truncated or right-padded with zero bytes to exactly 8 bytes.
pub open spec fn padded8(s: Seq<u8>) -> Seq<u8> {
    Seq::new(8, |i: int| byte_or_zero(s, i))
}

/// The fixed digest of a submitted value: its bytes truncated or
/// zero-padded to 8 bytes, packed little-endian into one word.
pub open spec fn digest_of(s: Seq<u8>) -> u64 {
    spec_u64_from_le_bytes(padded8(s))
}

/// Normalizes a submitted value of any length to its fixed 8-byte digest.
/// The packed word unpacks to exactly the truncated-or-padded bytes, so
/// nothing of the fixed digest is lost in the packing.
pub fn normalize_digest(bytes: &Vec<u8>) -> (d: u64)
    ensures
        d == digest_of(bytes@),
        spec_u64_to_le_bytes(d) == padded8(bytes@),
{
    proof {
        lemma_digest_round_trip(bytes@);
    }
    let mut p: Vec<u8> = Vec::new();
    let mut i: usize = 0;
    while i < 8
        invariant
            i <= 8,
            p@.len() == i,
            forall|j: int| 0 <= j < i ==> p@[j] == byte_or_zero(bytes@, j),
        decreases 8 - i,
    {
        if i < bytes.len() {
            p.push(bytes[i]);
        } else {
            p.push(0u8);
        }
        i += 1;
    }
    proof {
        assert(p@ =~= padded8(bytes@));
    }
    u64_from_le_bytes(p.as_slice())
}

/// The little-endian bytes of a digest are recovered exactly by unpacking
/// the packed word, so the digest is a faithful stand-in for the 8 bytes.
pub proof fn lemma_digest_round_trip(s: Seq<u8>)
    ensures
        spec_u64_to_le_bytes(digest_of(s)) == padded8(s),
{
    lemma_auto_spec_u64_to_from_le_bytes();
    assert(padded8(s).len() == 8);
}

} // verus!
