//! Powers of two and base-2 logarithms on machine words.
use vstd::prelude::*;

verus! {

/// `2^k`.
pub open spec fn exp2(k: nat) -> nat
    decreases k,
{
    if k == 0 {
        1
    } else {
        2 * exp2((k - 1) as nat)
    }
}

/// `n` is `2^k` for some `k`.
pub open spec fn is_power_of_two(n: nat) -> bool
    decreases n,
{
    if n == 0 {
        false
    } else if n == 1 {
        true
    } else {
        n % 2 == 0 && is_power_of_two(n / 2)
    }
}

/// The base-2 logarithm of `n`, rounded down (and 0 for `n == 0`).
pub open spec fn ilog2(n: nat) -> nat
    decreases n,
{
    if n <= 1 {
        0
    } else {
        1 + ilog2(n / 2)
    }
}

pub proof fn lemma_exp2_pos(k: nat)
    ensures
        exp2(k) >= 1,
    decreases k,
{
    if k > 0 {
        lemma_exp2_pos((k - 1) as nat);
    }
}

pub proof fn lemma_exp2_is_power_of_two(k: nat)
    ensures
        is_power_of_two(exp2(k)),
        ilog2(exp2(k)) == k,
    decreases k,
{
    if k > 0 {
        lemma_exp2_is_power_of_two((k - 1) as nat);
        lemma_exp2_pos((k - 1) as nat);
        assert(exp2(k) / 2 == exp2((k - 1) as nat));
    }
}

pub proof fn lemma_power_of_two_is_exp2(n: nat)
    requires
        is_power_of_two(n),
    ensures
        n == exp2(ilog2(n)),
    decreases n,
{
    if n > 1 {
        lemma_power_of_two_is_exp2(n / 2);
    }
}

/// `2^(a + b) == 2^a * 2^b`.
pub proof fn lemma_exp2_add(a: nat, b: nat)
    ensures
        exp2(a + b) == exp2(a) * exp2(b),
    decreases a,
{
    if a > 0 {
        let p = exp2((a - 1) as nat);
        let q = exp2(b);
        lemma_exp2_add((a - 1) as nat, b);
        assert(exp2(a + b) == 2 * exp2((a - 1 + b) as nat));
        assert(exp2(a) == 2 * p);
        assert(2 * (p * q) == (2 * p) * q) by (nonlinear_arith);
    } else {
        assert(exp2(a) == 1);
        assert(1 * exp2(b) == exp2(b));
    }
}

pub proof fn lemma_exp2_monotone(a: nat, b: nat)
    requires
        a <= b,
    ensures
        exp2(a) <= exp2(b),
    decreases b,
{
    if a < b {
        lemma_exp2_monotone(a, (b - 1) as nat);
        lemma_exp2_pos((b - 1) as nat);
    }
}

/// Dividing by `2^c` takes `c` off the logarithm of a number at least `2^c`.
pub proof fn lemma_ilog2_div_exp2(v: nat, c: nat)
    requires
        v >= exp2(c),
    ensures
        ilog2(v) == c + ilog2(v / exp2(c)),
        v / exp2(c) >= 1,
    decreases c,
{
    lemma_exp2_pos(c);
    if c > 0 {
        lemma_exp2_pos((c - 1) as nat);
        assert(v / 2 >= exp2((c - 1) as nat));
        lemma_ilog2_div_exp2(v / 2, (c - 1) as nat);
        vstd::arithmetic::div_mod::lemma_div_denominator(v as int, 2, exp2((c - 1) as nat) as int);
    }
}

/// `ilog2(v)` is the exponent of the largest power of two not above `v`.
pub proof fn lemma_ilog2_bounds(v: nat)
    requires
        v >= 1,
    ensures
        exp2(ilog2(v)) <= v < exp2(ilog2(v) + 1),
    decreases v,
{
    if v > 1 {
        lemma_ilog2_bounds(v / 2);
    }
}

/// Bit-level characterisation of powers of two on a 64-bit word.
pub proof fn lemma_power_of_two_bits(v: u64)
    ensures
        is_power_of_two(v as nat) <==> (v != 0 && v & ((v - 1) as u64) == 0),
    decreases v,
{
    if v == 0 {
    } else if v == 1 {
        assert(1u64 & 0u64 == 0) by (bit_vector);
    } else if v % 2 == 0 {
        let h: u64 = v / 2;
        assert(v % 2 == 0 && v > 1 ==> ((v & ((v - 1) as u64)) == 0 <==> ((v >> 1u64) & (((v >> 1u64) - 1) as u64)) == 0))
            by (bit_vector);
        assert(v >> 1u64 == v / 2) by (bit_vector);
        lemma_power_of_two_bits(h);
    } else {
        assert(v % 2 == 1 && v > 1 ==> v & ((v - 1) as u64) != 0) by (bit_vector);
    }
}

} // verus!

verus! {

/// `x` with every set bit copied into all the bits below it (one shift-or
/// cascade over 1, 2, 4, 8, 16 and 32 positions).
pub open spec fn fill_below(x: u64) -> u64 {
    let a = x | (x >> 1u64);
    let b = a | (a >> 2u64);
    let c = b | (b >> 4u64);
    let d = c | (c >> 8u64);
    let e = d | (d >> 16u64);
    e | (e >> 32u64)
}

/// What `next_pow2` computes: `1` for `0`, otherwise `fill_below(v - 1) + 1`.
pub open spec fn next_pow2_value(v: nat) -> int {
    if v == 0 {
        1
    } else {
        fill_below((v - 1) as u64) + 1
    }
}

/// On inputs below `2^63` the cascade yields one less than the least power
/// of two above `x`.
pub proof fn lemma_fill_below(x: u64)
    requires
        x < 0x8000_0000_0000_0000,
    ensures
        is_power_of_two((fill_below(x) + 1) as nat),
        fill_below(x) >= x,
        x > 0 ==> (fill_below(x) + 1) / 2 <= x,
        x == 0 ==> fill_below(x) == 0,
        fill_below(x) < 0x8000_0000_0000_0000,
{
    let y = fill_below(x);
    assert(x < 0x8000_0000_0000_0000 ==> fill_below(x) >= x && fill_below(x)
        < 0x8000_0000_0000_0000 && fill_below(x) & ((fill_below(x) + 1) as u64) == 0 && (x > 0
        ==> (fill_below(x) + 1) / 2 <= x) && (x == 0 ==> fill_below(x) == 0)) by (bit_vector);
    let r: u64 = (y + 1) as u64;
    assert(r & ((r - 1) as u64) == 0) by (bit_vector)
        requires
            y & ((y + 1) as u64) == 0,
            y < 0x8000_0000_0000_0000,
            r == (y + 1) as u64;
    lemma_power_of_two_bits(r);
}

/// Powers of two and base-2 logarithms.
pub trait PowersOf2: Sized {
    /// Whether `next_pow2` can compute its result without overflowing.
    spec fn next_pow2_fits(&self) -> bool;

    /// Returns true if this number is a power of two.
    fn is_pow2(&self) -> bool;

    /// Returns the next power of 2.
    fn next_pow2(&self) -> Self
        requires
            self.next_pow2_fits(),
    ;

    /// Returns the base-2 logarithm, rounded down.
    fn log2(&self) -> Self;
}

impl PowersOf2 for usize {
    open spec fn next_pow2_fits(&self) -> bool {
        next_pow2_value(*self as nat) <= usize::MAX
    }

    fn is_pow2(&self) -> (r: bool)
        ensures
            r == is_power_of_two(*self as nat),
    {
        let v: u64 = *self as u64;
        proof {
            lemma_power_of_two_bits(v);
        }
        v != 0 && (v & (v - 1)) == 0
    }

    fn next_pow2(&self) -> (r: usize)
        ensures
            r == next_pow2_value(*self as nat),
            *self <= 0x8000_0000_0000_0000 ==> {
                &&& is_power_of_two(r as nat)
                &&& *self <= r
                &&& (r == 1 || r / 2 < *self)
            },
    {
        if *self == 0 {
            1
        } else {
            let mut v: u64 = (*self - 1) as u64;
            v = v | (v >> 1u64);
            v = v | (v >> 2u64);
            v = v | (v >> 4u64);
            v = v | (v >> 8u64);
            v = v | (v >> 16u64);
            v = v | (v >> 32u64);
            proof {
                if *self <= 0x8000_0000_0000_0000 {
                    lemma_fill_below((*self - 1) as u64);
                }
            }
            (v + 1) as usize
        }
    }

    fn log2(&self) -> (r: usize)
        ensures
            r == ilog2(*self as nat),
    {
        let mut v: u64 = *self as u64;
        let mut r: usize = 0;
        proof {
            lemma_exp2_values();
        }
        assert(v & 0xFFFF_FFFF_0000_0000 != 0 <==> v >= 0x1_0000_0000) by (bit_vector);
        assert(v >> 32u64 == v / 0x1_0000_0000) by (bit_vector);
        if v & 0xFFFF_FFFF_0000_0000 != 0 {
            proof { lemma_log2_stage(v, 32); }
            v = v >> 32u64;
            r = r + 32;
        }
        assert(ilog2(*self as nat) == r + ilog2(v as nat) && v < 0x1_0000_0000);
        assert(v < 0x1_0000_0000 ==> (v & 0xFFFF_0000 != 0 <==> v >= 0x1_0000)) by (bit_vector);
        assert(v >> 16u64 == v / 0x1_0000) by (bit_vector);
        if v & 0xFFFF_0000 != 0 {
            proof { lemma_log2_stage(v, 16); }
            v = v >> 16u64;
            r = r + 16;
        }
        assert(ilog2(*self as nat) == r + ilog2(v as nat) && v < 0x1_0000);
        assert(v < 0x1_0000 ==> (v & 0xFF00 != 0 <==> v >= 0x100)) by (bit_vector);
        assert(v >> 8u64 == v / 0x100) by (bit_vector);
        if v & 0xFF00 != 0 {
            proof { lemma_log2_stage(v, 8); }
            v = v >> 8u64;
            r = r + 8;
        }
        assert(ilog2(*self as nat) == r + ilog2(v as nat) && v < 0x100);
        assert(v < 0x100 ==> (v & 0xF0 != 0 <==> v >= 0x10)) by (bit_vector);
        assert(v >> 4u64 == v / 0x10) by (bit_vector);
        if v & 0xF0 != 0 {
            proof { lemma_log2_stage(v, 4); }
            v = v >> 4u64;
            r = r + 4;
        }
        assert(ilog2(*self as nat) == r + ilog2(v as nat) && v < 0x10);
        assert(v < 0x10 ==> (v & 0xC != 0 <==> v >= 0x4)) by (bit_vector);
        assert(v >> 2u64 == v / 0x4) by (bit_vector);
        if v & 0xC != 0 {
            proof { lemma_log2_stage(v, 2); }
            v = v >> 2u64;
            r = r + 2;
        }
        assert(ilog2(*self as nat) == r + ilog2(v as nat) && v < 0x4);
        assert(v < 0x4 ==> (v & 0x2 != 0 <==> v >= 0x2)) by (bit_vector);
        assert(v >> 1u64 == v / 0x2) by (bit_vector);
        if v & 0x2 != 0 {
            proof { lemma_log2_stage(v, 1); }
            v = v >> 1u64;
            r = r + 1;
        }
        assert(v < 2);
        r
    }
}

/// Concrete values of `2^k` used by the word-level proofs.
pub proof fn lemma_exp2_values()
    ensures
        exp2(1) == 0x2,
        exp2(2) == 0x4,
        exp2(4) == 0x10,
        exp2(8) == 0x100,
        exp2(12) == 0x1000,
        exp2(16) == 0x10000,
        exp2(21) == 0x200000,
        exp2(30) == 0x40000000,
        exp2(32) == 0x100000000,
        exp2(39) == 0x8000000000,
        exp2(63) == 0x8000000000000000,
        exp2(64) == 0x10000000000000000,
{
    assert(exp2(0) == 0x1);
    assert(exp2(1) == 0x2);
    assert(exp2(2) == 0x4);
    assert(exp2(3) == 0x8);
    assert(exp2(4) == 0x10);
    assert(exp2(5) == 0x20);
    assert(exp2(6) == 0x40);
    assert(exp2(7) == 0x80);
    assert(exp2(8) == 0x100);
    assert(exp2(9) == 0x200);
    assert(exp2(10) == 0x400);
    assert(exp2(11) == 0x800);
    assert(exp2(12) == 0x1000);
    assert(exp2(13) == 0x2000);
    assert(exp2(14) == 0x4000);
    assert(exp2(15) == 0x8000);
    assert(exp2(16) == 0x10000);
    assert(exp2(17) == 0x20000);
    assert(exp2(18) == 0x40000);
    assert(exp2(19) == 0x80000);
    assert(exp2(20) == 0x100000);
    assert(exp2(21) == 0x200000);
    assert(exp2(22) == 0x400000);
    assert(exp2(23) == 0x800000);
    assert(exp2(24) == 0x1000000);
    assert(exp2(25) == 0x2000000);
    assert(exp2(26) == 0x4000000);
    assert(exp2(27) == 0x8000000);
    assert(exp2(28) == 0x10000000);
    assert(exp2(29) == 0x20000000);
    assert(exp2(30) == 0x40000000);
    assert(exp2(31) == 0x80000000);
    assert(exp2(32) == 0x100000000);
    assert(exp2(33) == 0x200000000);
    assert(exp2(34) == 0x400000000);
    assert(exp2(35) == 0x800000000);
    assert(exp2(36) == 0x1000000000);
    assert(exp2(37) == 0x2000000000);
    assert(exp2(38) == 0x4000000000);
    assert(exp2(39) == 0x8000000000);
    assert(exp2(40) == 0x10000000000);
    assert(exp2(41) == 0x20000000000);
    assert(exp2(42) == 0x40000000000);
    assert(exp2(43) == 0x80000000000);
    assert(exp2(44) == 0x100000000000);
    assert(exp2(45) == 0x200000000000);
    assert(exp2(46) == 0x400000000000);
    assert(exp2(47) == 0x800000000000);
    assert(exp2(48) == 0x1000000000000);
    assert(exp2(49) == 0x2000000000000);
    assert(exp2(50) == 0x4000000000000);
    assert(exp2(51) == 0x8000000000000);
    assert(exp2(52) == 0x10000000000000);
    assert(exp2(53) == 0x20000000000000);
    assert(exp2(54) == 0x40000000000000);
    assert(exp2(55) == 0x80000000000000);
    assert(exp2(56) == 0x100000000000000);
    assert(exp2(57) == 0x200000000000000);
    assert(exp2(58) == 0x400000000000000);
    assert(exp2(59) == 0x800000000000000);
    assert(exp2(60) == 0x1000000000000000);
    assert(exp2(61) == 0x2000000000000000);
    assert(exp2(62) == 0x4000000000000000);
    assert(exp2(63) == 0x8000000000000000);
    assert(exp2(64) == 0x10000000000000000);
}

/// One halving step of the table-driven logarithm: shifting a value in
/// `2^c .. 2^(2c)` right by `c` takes `c` off its logarithm and leaves it
/// below `2^c`.
proof fn lemma_log2_stage(v: u64, c: nat)
    requires
        v >= exp2(c),
        c == 32 || v < exp2(c) * exp2(c),
        c <= 32,
    ensures
        ilog2(v as nat) == c + ilog2(v as nat / exp2(c)),
        v as nat / exp2(c) < exp2(c),
{
    lemma_ilog2_div_exp2(v as nat, c);
    lemma_exp2_pos(c);
    lemma_exp2_values();
    let e = exp2(c);
    if c == 32 {
        assert(v as nat / e < e);
    } else {
        assert((v as int) / (e as int) < e) by (nonlinear_arith)
            requires v < e * e, e > 0;
    }
}

} // verus!

verus! {

/// `exp2` agrees with vstd's `pow2`.
pub proof fn lemma_exp2_is_pow2(k: nat)
    ensures
        exp2(k) == vstd::arithmetic::power2::pow2(k),
    decreases k,
{
    if k == 0 {
        vstd::arithmetic::power2::lemma2_to64();
    } else {
        lemma_exp2_is_pow2((k - 1) as nat);
        vstd::arithmetic::power2::lemma_pow2_unfold(k);
    }
}

/// `1 << k` is `2^k` on a machine word.
pub proof fn lemma_shl_one(k: usize)
    requires
        k < usize::BITS,
    ensures
        (1usize << k) as nat == exp2(k as nat),
        exp2(k as nat) <= usize::MAX,
{
    vstd::bits::lemma_usize_pow2_no_overflow(k as nat);
    lemma_exp2_is_pow2(k as nat);
    vstd::bits::lemma_usize_shl_is_mul(1, k);
}

/// Remainder by `2^k` is the low `k` bits.
pub proof fn lemma_mod_is_mask(x: usize, k: usize)
    requires
        k < usize::BITS,
    ensures
        x % (1usize << k) == x & (((1usize << k) - 1) as usize),
        (1usize << k) >= 1,
{
    lemma_shl_one(k);
    lemma_exp2_pos(k as nat);
    vstd::bits::lemma_usize_low_bits_mask_is_mod(x, k as nat);
    lemma_exp2_is_pow2(k as nat);
}

/// Multiples of `2a` are multiples of `a`, and so are they plus `a`.
pub proof fn lemma_mod_double(x: int, a: int)
    requires
        a > 0,
        x >= 0,
        x % (2 * a) == 0,
    ensures
        x % a == 0,
        (x + a) % a == 0,
{
    let q = x / (2 * a);
    vstd::arithmetic::div_mod::lemma_fundamental_div_mod(x, 2 * a);
    assert(x == (2 * q) * a) by (nonlinear_arith)
        requires x == (2 * a) * q + x % (2 * a), x % (2 * a) == 0;
    vstd::arithmetic::div_mod::lemma_mod_multiples_basic(2 * q, a);
    assert(x + a == (2 * q + 1) * a) by (nonlinear_arith)
        requires x == (2 * q) * a;
    vstd::arithmetic::div_mod::lemma_mod_multiples_basic(2 * q + 1, a);
}

} // verus!

verus! {

/// `2^a < 2^b` when `a < b`.
pub proof fn lemma_exp2_strict(a: nat, b: nat)
    requires
        a < b,
    ensures
        exp2(a) < exp2(b),
    decreases b,
{
    lemma_exp2_pos(a);
    if a + 1 < b {
        lemma_exp2_strict(a, (b - 1) as nat);
    }
    lemma_exp2_pos((b - 1) as nat);
}

/// Among powers of two, `ilog2` is monotone.
pub proof fn lemma_ilog2_monotone_pow2(a: nat, b: nat)
    requires
        is_power_of_two(a),
        is_power_of_two(b),
        a <= b,
    ensures
        ilog2(a) <= ilog2(b),
{
    lemma_power_of_two_is_exp2(a);
    lemma_power_of_two_is_exp2(b);
    if ilog2(a) > ilog2(b) {
        lemma_exp2_strict(ilog2(b), ilog2(a));
    }
}

/// A power of two below `2^e` has a logarithm below `e`... at most `e` when
/// it is at most `2^e`.
pub proof fn lemma_ilog2_le_of_le_exp2(a: nat, e: nat)
    requires
        is_power_of_two(a),
        a <= exp2(e),
    ensures
        ilog2(a) <= e,
{
    lemma_exp2_is_power_of_two(e);
    lemma_ilog2_monotone_pow2(a, exp2(e));
}

} // verus!

verus! {

/// Or-ing in shifted copies only adds bits: the cascade is at least its
/// input.
pub proof fn lemma_fill_below_ge(x: u64)
    ensures
        fill_below(x) >= x,
{
    assert(fill_below(x) >= x) by (bit_vector);
}

/// `ilog2` is monotone.
pub proof fn lemma_ilog2_monotone(a: nat, b: nat)
    requires
        1 <= a <= b,
    ensures
        ilog2(a) <= ilog2(b),
{
    lemma_ilog2_bounds(a);
    lemma_ilog2_bounds(b);
    if ilog2(a) > ilog2(b) {
        lemma_exp2_monotone(ilog2(b) + 1, ilog2(a));
    }
}

/// Two powers of two within a factor of two of each other are equal.
pub proof fn lemma_pow2_between(a: nat, b: nat)
    requires
        is_power_of_two(a),
        is_power_of_two(b),
        a <= b < 2 * a,
    ensures
        a == b,
{
    lemma_power_of_two_is_exp2(a);
    lemma_power_of_two_is_exp2(b);
    let i = ilog2(a);
    let j = ilog2(b);
    if j < i {
        lemma_exp2_strict(j, i);
    } else if j > i {
        lemma_exp2_monotone(i + 1, j);
    }
}

/// A multiple of a power of two is a multiple of every smaller power of two.
pub proof fn lemma_pow2_multiple(x: nat, a: nat, c: nat)
    requires
        is_power_of_two(a),
        is_power_of_two(c),
        a <= c,
        x % c == 0,
    ensures
        x % a == 0,
{
    lemma_power_of_two_is_exp2(a);
    lemma_power_of_two_is_exp2(c);
    let i = ilog2(a);
    let j = ilog2(c);
    if j < i {
        lemma_exp2_strict(j, i);
    }
    let d = (j - i) as nat;
    lemma_exp2_add(d, i);
    lemma_exp2_pos(i);
    lemma_exp2_pos(j);
    let q = x / c;
    vstd::arithmetic::div_mod::lemma_fundamental_div_mod(x as int, c as int);
    assert(x == exp2(i) * (exp2(d) * q)) by (nonlinear_arith)
        requires
            x == c * q + x % c,
            x % c == 0,
            c == exp2(d) * exp2(i),
    ;
    vstd::arithmetic::div_mod::lemma_mod_multiples_basic((exp2(d) * q) as int, exp2(i) as int);
    assert((exp2(d) * q) * exp2(i) == exp2(i) * (exp2(d) * q)) by (nonlinear_arith);
}

/// The page size, 4096, is a power of two.
pub proof fn lemma_4096_is_power_of_two()
    ensures
        is_power_of_two(4096),
{
    lemma_exp2_values();
    lemma_exp2_is_power_of_two(12);
}

} // verus!
