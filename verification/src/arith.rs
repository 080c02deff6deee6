//! Powers of two and binary logarithms, as the prefix arithmetic needs them.

use vstd::arithmetic::div_mod::{lemma_fundamental_div_mod, lemma_mod_multiples_basic};
use vstd::arithmetic::power2::{
    lemma2_to64, lemma2_to64_rest, lemma_pow2_adds, lemma_pow2_pos, lemma_pow2_strictly_increases,
    lemma_pow2_unfold, pow2,
};
use vstd::prelude::*;

verus! {

/// The number of bits needed to tell `n` things apart: the least `b` with
/// `2^b >= n`. It is 0 for `n <= 1`.
pub open spec fn bits_needed(n: nat) -> nat
    decreases n,
{
    if n <= 1 {
        0
    } else {
        1 + bits_needed((n + 1) / 2)
    }
}

/// `2^a <= 2^b` whenever `a <= b`.
pub proof fn lemma_pow2_monotone(a: nat, b: nat)
    requires
        a <= b,
    ensures
        pow2(a) <= pow2(b),
{
    if a < b {
        lemma_pow2_strictly_increases(a, b);
    }
}

/// `bits_needed(n)` is the least exponent whose power of two reaches `n`:
/// `2^bits_needed(n) >= n`, and the power below it falls short of `n`.
pub proof fn lemma_bits_needed(n: nat)
    ensures
        pow2(bits_needed(n)) >= n,
        bits_needed(n) > 0 ==> pow2((bits_needed(n) - 1) as nat) < n,
    decreases n,
{
    lemma2_to64();
    if n > 1 {
        let m: nat = (n + 1) / 2;
        lemma_bits_needed(m);
        lemma_pow2_unfold(bits_needed(n));
        if bits_needed(m) > 0 {
            lemma_pow2_unfold(bits_needed(m));
        }
    }
}

/// Any exponent `b` with `2^b >= n` whose predecessor falls short of `n` is
/// `bits_needed(n)`.
pub proof fn lemma_bits_needed_unique(n: nat, b: nat)
    requires
        pow2(b) >= n,
        b > 0 ==> pow2((b - 1) as nat) < n,
    ensures
        b == bits_needed(n),
{
    let c = bits_needed(n);
    lemma_bits_needed(n);
    if b < c {
        lemma_pow2_monotone(b, (c - 1) as nat);
    }
    if c < b {
        lemma_pow2_monotone(c, (b - 1) as nat);
    }
}

/// Any exponent whose power of two reaches `n` is at least
/// `bits_needed(n)`.
pub proof fn lemma_bits_needed_least(n: nat, b: nat)
    requires
        pow2(b) >= n,
    ensures
        bits_needed(n) <= b,
{
    lemma_bits_needed(n);
    if bits_needed(n) > b {
        lemma_pow2_monotone(b, (bits_needed(n) - 1) as nat);
    }
}

/// The least exponent whose power of two reaches `n`.
pub fn bits_needed_u64(n: u64) -> (b: u8)
    ensures
        b as nat == bits_needed(n as nat),
        b <= 64,
{
    let mut b: u8 = 0;
    let mut p: u64 = 1;
    proof {
        lemma2_to64();
    }
    while p < n && b < 63
        invariant
            b <= 63,
            p as nat == pow2(b as nat),
            b > 0 ==> pow2((b - 1) as nat) < n,
        decreases 63 - b,
    {
        proof {
            lemma2_to64();
            lemma_pow2_unfold((b + 1) as nat);
            lemma_pow2_strictly_increases((b + 1) as nat, 64);
        }
        p = p * 2;
        b = b + 1;
    }
    if p < n {
        proof {
            lemma_bits_needed_unique(n as nat, 64);
        }
        64
    } else {
        proof {
            lemma_bits_needed_unique(n as nat, b as nat);
        }
        b
    }
}

/// `2^e` for an exponent below 64.
pub fn pow2_u64(e: u8) -> (r: u64)
    requires
        e <= 63,
    ensures
        r as nat == pow2(e as nat),
{
    let mut r: u64 = 1;
    let mut i: u8 = 0;
    proof {
        lemma2_to64();
    }
    while i < e
        invariant
            i <= e <= 63,
            r as nat == pow2(i as nat),
        decreases e - i,
    {
        proof {
            lemma2_to64();
            lemma_pow2_unfold((i + 1) as nat);
            lemma_pow2_strictly_increases((i + 1) as nat, 64);
        }
        r = r * 2;
        i = i + 1;
    }
    r
}

/// `2^128` is one more than the largest `u128`, and `2^127` is its top bit.
pub proof fn lemma_pow2_128()
    ensures
        pow2(128) == u128::MAX + 1,
        pow2(127) == 0x8000_0000_0000_0000_0000_0000_0000_0000,
{
    lemma2_to64();
    lemma2_to64_rest();
    lemma_pow2_adds(64, 64);
    lemma_pow2_adds(64, 63);
}

/// `2^e` for an exponent below 128.
pub fn pow2_u128(e: u8) -> (r: u128)
    requires
        e <= 127,
    ensures
        r as nat == pow2(e as nat),
{
    let mut r: u128 = 1;
    let mut i: u8 = 0;
    proof {
        lemma2_to64();
    }
    while i < e
        invariant
            i <= e <= 127,
            r as nat == pow2(i as nat),
        decreases e - i,
    {
        proof {
            lemma_pow2_unfold((i + 1) as nat);
            lemma_pow2_strictly_increases((i + 1) as nat, 128);
            lemma_pow2_128();
        }
        r = r * 2;
        i = i + 1;
    }
    r
}

/// An address below `2^w` whose low `w - p` bits are zero leaves room for
/// its whole block of `2^(w - p)` addresses below `2^w`.
pub proof fn lemma_aligned_block_fits(addr: nat, w: nat, p: nat)
    requires
        p <= w,
        addr < pow2(w),
        addr % pow2((w - p) as nat) == 0,
    ensures
        addr + pow2((w - p) as nat) <= pow2(w),
{
    let size = pow2((w - p) as nat);
    let count = pow2(p);
    let k = addr / size;
    lemma_pow2_adds(p, (w - p) as nat);
    lemma_pow2_pos((w - p) as nat);
    lemma_fundamental_div_mod(addr as int, size as int);
    assert(k < count) by (nonlinear_arith)
        requires
            addr == size * k,
            addr < count * size,
            size > 0,
    ;
    assert(size * k + size <= count * size) by (nonlinear_arith)
        requires
            k + 1 <= count,
            size > 0,
    ;
}

/// Rounding `addr` down to a multiple of `size` gives a multiple of `size`
/// that is at most `addr` and less than `size` below it.
pub proof fn lemma_round_down(addr: nat, size: nat)
    requires
        size > 0,
    ensures
        (addr - addr % size) % (size as int) == 0,
        0 <= addr - addr % size <= addr,
        addr % size < size,
{
    lemma_fundamental_div_mod(addr as int, size as int);
    lemma_mod_multiples_basic((addr / size) as int, size as int);
    assert(size * (addr / size) == (addr / size) * size) by (nonlinear_arith);
}

/// The subnet at index `i` among the `2^(np - p)` subnets of prefix length
/// `np` of a block of prefix length `p`, in an address space of `w` bits:
/// it starts on a multiple of its own size and lies inside the block.
pub proof fn lemma_subnet_in_block(addr: nat, w: nat, p: nat, np: nat, i: nat)
    requires
        p <= np <= w,
        addr < pow2(w),
        addr % pow2((w - p) as nat) == 0,
        i < pow2((np - p) as nat),
    ensures
        (addr + i * pow2((w - np) as nat)) % pow2((w - np) as nat) == 0,
        addr + i * pow2((w - np) as nat) + pow2((w - np) as nat) <= addr + pow2((w - p) as nat),
        addr + pow2((w - p) as nat) <= pow2(w),
        pow2((w - p) as nat) == pow2((np - p) as nat) * pow2((w - np) as nat),
{
    let big = pow2((w - p) as nat);
    let small = pow2((w - np) as nat);
    let count = pow2((np - p) as nat);
    lemma_aligned_block_fits(addr, w, p);
    lemma_pow2_adds((np - p) as nat, (w - np) as nat);
    lemma_pow2_pos((w - np) as nat);
    lemma_pow2_pos((w - p) as nat);
    lemma_fundamental_div_mod(addr as int, big as int);
    let k = addr / big;
    assert(addr + i * small == (k * count + i) * small) by (nonlinear_arith)
        requires
            addr == big * k,
            big == count * small,
    ;
    lemma_mod_multiples_basic((k * count + i) as int, small as int);
    assert(i * small + small <= count * small) by (nonlinear_arith)
        requires
            i + 1 <= count,
            small > 0,
    ;
}

} // verus!
