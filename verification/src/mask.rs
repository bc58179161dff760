//! The 4-byte XOR masking key that clients apply to every payload byte, and
//! the masking routines themselves.

use vstd::prelude::*;

verus! {

/// A 4-byte XOR key. Byte `i` of a payload is combined with key byte
/// `i mod 4`.
#[derive(Clone, Copy, Debug, PartialEq, Eq, Structural)]
pub struct Mask {
    pub k0: u8,
    pub k1: u8,
    pub k2: u8,
    pub k3: u8,
}

/// The key byte that position `i` of a payload is masked with.
pub open spec fn mask_byte_at(m: Mask, i: int) -> u8 {
    if i % 4 == 0 {
        m.k0
    } else if i % 4 == 1 {
        m.k1
    } else if i % 4 == 2 {
        m.k2
    } else {
        m.k3
    }
}

/// The sequence `s` with the mask `m` applied: byte `i` xored with key
/// byte `i mod 4`.
pub open spec fn mask_seq(s: Seq<u8>, m: Mask) -> Seq<u8> {
    Seq::new(s.len(), |i: int| s[i] ^ mask_byte_at(m, i))
}

/// Masking is an involution on a single byte: xoring twice with the same
/// key byte restores the original.
proof fn lemma_xor_involution(a: u8, b: u8)
    by (bit_vector)
    ensures
        (a ^ b) ^ b == a,
{
}

/// Masking twice with the same key is the identity: unmasking after
/// masking (or the reverse) restores the original payload.
pub proof fn lemma_mask_involution(s: Seq<u8>, m: Mask)
    ensures
        mask_seq(mask_seq(s, m), m) == s,
{
    let t = mask_seq(mask_seq(s, m), m);
    assert forall|i: int| 0 <= i < s.len() implies t[i] == s[i] by {
        lemma_xor_involution(s[i], mask_byte_at(m, i));
    }
    assert(t =~= s);
}

impl Mask {
    /// The key bytes in wire order.
    pub open spec fn spec_bytes(self) -> Seq<u8> {
        seq![self.k0, self.k1, self.k2, self.k3]
    }

    /// Builds a mask from its four key bytes in wire order.
    pub fn from_bytes(k0: u8, k1: u8, k2: u8, k3: u8) -> (r: Mask)
        ensures
            r == (Mask { k0, k1, k2, k3 }),
    {
        Mask { k0, k1, k2, k3 }
    }

    /// Draws a fresh key from the process-wide random source.
    ///
    /// Relies on `rand::random`: nothing is promised of the value drawn.
    #[verifier::external_body]
    pub fn new() -> (r: Mask)
    {
        let key: [u8; 4] = rand::random();
        Mask { k0: key[0], k1: key[1], k2: key[2], k3: key[3] }
    }
}

/// Applies the mask in place: `buf[i] ^= key byte (i mod 4)`.
pub fn mask_slice(buf: &mut Vec<u8>, mask: Mask)
    ensures
        final(buf)@ == mask_seq(old(buf)@, mask),
{
    let ghost orig = buf@;
    let n = buf.len();
    let mut i: usize = 0;
    while i < n
        invariant
            n == orig.len(),
            buf@.len() == n,
            i <= n,
            forall|j: int| 0 <= j < i ==> buf@[j] == mask_seq(orig, mask)[j],
            forall|j: int| i <= j < n ==> buf@[j] == orig[j],
        decreases n - i,
    {
        let key = match i % 4 {
            0 => mask.k0,
            1 => mask.k1,
            2 => mask.k2,
            _ => mask.k3,
        };
        buf[i] = buf[i] ^ key;
        i = i + 1;
    }
    assert(buf@ =~= mask_seq(orig, mask));
}

/// Returns a masked copy of `src`: byte `i` of the result is
/// `src[i] ^ key byte (i mod 4)`.
pub fn mask_slice_copy(src: &Vec<u8>, mask: Mask) -> (r: Vec<u8>)
    ensures
        r@ == mask_seq(src@, mask),
{
    let n = src.len();
    let mut out: Vec<u8> = Vec::new();
    let mut i: usize = 0;
    while i < n
        invariant
            n == src@.len(),
            i <= n,
            out@.len() == i,
            forall|j: int| 0 <= j < i ==> out@[j] == mask_seq(src@, mask)[j],
        decreases n - i,
    {
        let key = match i % 4 {
            0 => mask.k0,
            1 => mask.k1,
            2 => mask.k2,
            _ => mask.k3,
        };
        out.push(src[i] ^ key);
        i = i + 1;
    }
    assert(out@ =~= mask_seq(src@, mask));
    out
}

} // verus!
