//! What holds of the digest of a content.

use vstd::prelude::*;
use crate::snapshot::{fnv1a, hash_text, FNV_PRIME};
use crate::text::{digit_char, hex};

verus! {

/// The inverse of the FNV prime modulo 2^64.
pub const FNV_PRIME_INVERSE: u64 = 0xce965057aff6957b;

/// Multiplying by the prime modulo 2^64 loses nothing: the inverse gives the
/// factor back.
proof fn lemma_prime_inverse(x: u64)
    ensures
        x.wrapping_mul(FNV_PRIME).wrapping_mul(FNV_PRIME_INVERSE) == x,
{
    let p: u64 = 0x100000001b3;
    let q: u64 = 0xce965057aff6957b;
    assert(((((x * p) % 0x1_0000_0000_0000_0000) as u64) * q) % 0x1_0000_0000_0000_0000 == x)
        by (bit_vector)
        requires
            p == 0x100000001b3u64,
            q == 0xce965057aff6957bu64,
    ;
}

/// One step of the digest gives different results for different states and
/// for different bytes.
proof fn lemma_step_injective(s1: u64, b1: u8, s2: u64, b2: u8)
    requires
        (s1 ^ (b1 as u64)).wrapping_mul(FNV_PRIME) == (s2 ^ (b2 as u64)).wrapping_mul(FNV_PRIME),
    ensures
        s1 == s2 ==> b1 == b2,
        b1 == b2 ==> s1 == s2,
{
    lemma_prime_inverse(s1 ^ (b1 as u64));
    lemma_prime_inverse(s2 ^ (b2 as u64));
    let x1 = b1 as u64;
    let x2 = b2 as u64;
    assert(s1 ^ x1 == s2 ^ x2);
    assert(s1 == s2 ==> x1 == x2) by (bit_vector)
        requires
            s1 ^ x1 == s2 ^ x2,
    ;
    assert(x1 == x2 ==> s1 == s2) by (bit_vector)
        requires
            s1 ^ x1 == s2 ^ x2,
    ;
}

/// Sixteen to the power of `k`.
spec fn pow16(k: nat) -> nat
    decreases k,
{
    if k == 0 {
        1
    } else {
        16 * pow16((k - 1) as nat)
    }
}

proof fn lemma_hex_len(n: nat, w: nat)
    requires
        w >= 1,
        n < pow16(w),
    ensures
        hex(n, w).len() == w,
    decreases w,
{
    if n < 16 && w <= 1 {
    } else {
        assert(pow16(1) == 16) by {
            assert(pow16(0) == 1);
        }
        lemma_hex_len(n / 16, (w - 1) as nat);
    }
}

/// Numbers below sixteen to the power of `w` have different texts of `w`
/// digits.
proof fn lemma_hex_injective(n: nat, m: nat, w: nat)
    requires
        w >= 1,
        n < pow16(w),
        m < pow16(w),
        hex(n, w) == hex(m, w),
    ensures
        n == m,
    decreases w,
{
    assert(pow16(1) == 16) by {
        assert(pow16(0) == 1);
    }
    if w == 1 {
        assert(hex(n, w)[0] == digit_char(n));
        assert(hex(m, w)[0] == digit_char(m));
    } else {
        let rest = (w - 1) as nat;
        lemma_hex_len(n / 16, rest);
        lemma_hex_len(m / 16, rest);
        let a = hex(n / 16, rest);
        let b = hex(m / 16, rest);
        assert(hex(n, w) == a.push(digit_char(n % 16)));
        assert(hex(m, w) == b.push(digit_char(m % 16)));
        assert(a.push(digit_char(n % 16)).drop_last() == a);
        assert(b.push(digit_char(m % 16)).drop_last() == b);
        assert(a.push(digit_char(n % 16)).last() == digit_char(n % 16));
        assert(b.push(digit_char(m % 16)).last() == digit_char(m % 16));
        lemma_hex_injective(n / 16, m / 16, rest);
    }
}

proof fn lemma_pow16_16()
    ensures
        pow16(16) == 0x1_0000_0000_0000_0000nat,
{
    assert(pow16(0) == 1);
    assert(pow16(1) == 0x10);
    assert(pow16(2) == 0x100);
    assert(pow16(3) == 0x1000);
    assert(pow16(4) == 0x10000);
    assert(pow16(5) == 0x100000);
    assert(pow16(6) == 0x1000000);
    assert(pow16(7) == 0x10000000);
    assert(pow16(8) == 0x100000000);
    assert(pow16(9) == 0x1000000000);
    assert(pow16(10) == 0x10000000000);
    assert(pow16(11) == 0x100000000000);
    assert(pow16(12) == 0x1000000000000);
    assert(pow16(13) == 0x10000000000000);
    assert(pow16(14) == 0x100000000000000);
    assert(pow16(15) == 0x1000000000000000);
}

/// The digest is a function of the content: contents with the same bytes
/// have the same digest.
pub proof fn lemma_hash_of_equal_content(a: Seq<u8>, b: Seq<u8>)
    requires
        a.len() == b.len(),
        forall|i: int| 0 <= i < a.len() ==> a[i] == b[i],
    ensures
        hash_text(a) == hash_text(b),
{
    assert(a =~= b);
}

/// Whether `a` and `b` have the same length and differ at position `k` and
/// nowhere else.
pub open spec fn differ_at(a: Seq<u8>, b: Seq<u8>, k: int) -> bool {
    &&& a.len() == b.len()
    &&& 0 <= k < a.len()
    &&& a[k] != b[k]
    &&& forall|i: int| 0 <= i < a.len() && i != k ==> a[i] == b[i]
}

proof fn lemma_fnv_differs(a: Seq<u8>, b: Seq<u8>, k: int)
    requires
        differ_at(a, b, k),
    ensures
        fnv1a(a) != fnv1a(b),
    decreases a.len(),
{
    let pa = a.drop_last();
    let pb = b.drop_last();
    if k == a.len() - 1 {
        assert(pa =~= pb);
        if fnv1a(a) == fnv1a(b) {
            lemma_step_injective(fnv1a(pa), a.last(), fnv1a(pb), b.last());
        }
    } else {
        assert(differ_at(pa, pb, k));
        lemma_fnv_differs(pa, pb, k);
        if fnv1a(a) == fnv1a(b) {
            lemma_step_injective(fnv1a(pa), a.last(), fnv1a(pb), b.last());
        }
    }
}

/// Changing one byte of a content changes its digest.
pub proof fn lemma_hash_of_changed_byte(a: Seq<u8>, b: Seq<u8>, k: int)
    requires
        differ_at(a, b, k),
    ensures
        hash_text(a) != hash_text(b),
{
    lemma_fnv_differs(a, b, k);
    lemma_pow16_16();
    if hash_text(a) == hash_text(b) {
        lemma_hex_injective(fnv1a(a) as nat, fnv1a(b) as nat, 16);
    }
}

} // verus!
