//! Alignment of addresses and lengths, and integers made of bytes.

use vstd::arithmetic::div_mod::*;
use vstd::arithmetic::mul::*;
use vstd::prelude::*;

verus! {

/// Whether `a` is a multiple of `x`.
pub fn is_aligned(a: u32, x: u32) -> (aligned: bool)
    requires
        x > 0,
    ensures
        aligned == (a as int % x as int == 0),
{
    a % x == 0
}

/// The largest multiple of `a` that is at most `x`.
pub fn round_down(x: u32, a: u32) -> (r: u32)
    requires
        a > 0,
    ensures
        r as int % a as int == 0,
        r <= x < r + a,
        r == x - x as int % a as int,
{
    proof {
        lemma_fundamental_div_mod(x as int, a as int);
        lemma_mod_multiples_basic(x as int / a as int, a as int);
        lemma_mul_is_commutative(x as int / a as int, a as int);
    }
    x - x % a
}

/// The smallest multiple of `a` that is at least `x`.
pub open spec fn rounded_up(x: int, a: int) -> int {
    if x % a == 0 {
        x
    } else {
        x - x % a + a
    }
}

/// The smallest multiple of `a` that is at least `x`.
pub fn round_up(x: u32, a: u32) -> (r: u32)
    requires
        a > 0,
        x + a - 1 <= u32::MAX,
    ensures
        r as int % a as int == 0,
        x <= r < x + a,
        r == rounded_up(x as int, a as int),
{
    let down: u32 = round_down(x, a);
    if down == x {
        x
    } else {
        proof {
            lemma_mod_add_multiples_vanish(down as int, a as int);
        }
        down + a
    }
}

/// The smallest multiple of four that is at least `n`, by division.
pub proof fn law_rounded_up_to_words(n: int)
    requires
        0 <= n,
    ensures
        rounded_up(n, 4) == (n + 3) / 4 * 4,
        n <= rounded_up(n, 4) < n + 4,
        rounded_up(n, 4) % 4 == 0,
{
    let q = n / 4;
    let r = n % 4;
    assert(n == 4 * q + r && 0 <= r < 4);
    if r == 0 {
        assert((n + 3) / 4 == q);
    } else {
        assert((n + 3) / 4 == q + 1);
    }
}

/// The 16-bit integer with low byte `lo` and high byte `hi`.
pub open spec fn u16_of(lo: u8, hi: u8) -> int {
    lo + 256 * hi
}

/// The 16-bit integer whose little-endian bytes stand at `i` in `s`.
pub open spec fn u16_at(s: Seq<u8>, i: int) -> int {
    u16_of(s[i], s[i + 1])
}

/// The 32-bit integer with the given bytes, lowest first.
pub open spec fn u32_of(b0: u8, b1: u8, b2: u8, b3: u8) -> int {
    b0 + 0x100 * b1 + 0x1_0000 * b2 + 0x100_0000 * b3
}

/// Reads the little-endian 16-bit integer at `i`.
pub fn read_u16(s: &[u8], i: usize) -> (v: u16)
    requires
        i + 1 < s@.len(),
    ensures
        v == u16_at(s@, i as int),
        v == s@[i as int] + 256 * s@[i + 1],
{
    s[i] as u16 + 256 * s[i + 1] as u16
}

/// The little-endian bytes of a 32-bit integer.
pub open spec fn u32_bytes(v: u32) -> Seq<u8> {
    seq![
        (v % 256) as u8,
        (v / 0x100 % 256) as u8,
        (v / 0x1_0000 % 256) as u8,
        (v / 0x100_0000) as u8,
    ]
}

/// The little-endian bytes of a 32-bit integer.
pub fn u32_to_bytes(v: u32) -> (b: [u8; 4])
    ensures
        b@ == u32_bytes(v),
        v == b@[0] + 0x100 * b@[1] + 0x1_0000 * b@[2] + 0x100_0000 * b@[3],
{
    let b: [u8; 4] = [
        (v % 256) as u8,
        (v / 0x100 % 256) as u8,
        (v / 0x1_0000 % 256) as u8,
        (v / 0x100_0000) as u8,
    ];
    assert(b@ =~= u32_bytes(v));
    proof {
        law_u32_bytes(v);
    }
    b
}

/// The bytes of an integer put together give the integer.
pub proof fn law_u32_bytes(v: u32)
    ensures
        ({
            let b = u32_bytes(v);
            u32_of(b[0], b[1], b[2], b[3]) == v
        }),
{
    let v1 = v / 0x100;
    let v2 = v / 0x1_0000;
    let v3 = v / 0x100_0000;
    assert(v2 == v1 / 0x100);
    assert(v3 == v2 / 0x100);
    assert(v == 0x100 * v1 + v % 256);
    assert(v1 == 0x100 * v2 + v1 % 256);
    assert(v2 == 0x100 * v3 + v2 % 256);
}

/// The integer put together from bytes has those bytes.
pub proof fn law_u32_of_bytes(b0: u8, b1: u8, b2: u8, b3: u8)
    ensures
        0 <= u32_of(b0, b1, b2, b3) <= u32::MAX,
        u32_bytes(u32_of(b0, b1, b2, b3) as u32) == seq![b0, b1, b2, b3],
{
    let v = u32_of(b0, b1, b2, b3) as u32;
    let r1 = b1 + 0x100 * b2 + 0x1_0000 * b3;
    let r2 = b2 + 0x100 * b3;
    assert(v == 0x100 * r1 + b0);
    assert(v % 256 == b0 && v / 0x100 == r1);
    assert(r1 == 0x100 * r2 + b1);
    assert(r1 % 256 == b1 && r1 / 0x100 == r2);
    assert(v / 0x1_0000 == r2);
    assert(r2 % 256 == b2);
    assert(v / 0x100_0000 == b3);
    assert(u32_bytes(v) =~= seq![b0, b1, b2, b3]);
}

/// A sum that wraps around at 2^32.
pub open spec fn wrapped_sum(a: u32, b: int) -> u32 {
    ((a + b) % 0x1_0000_0000) as u32
}

/// Adding twice is adding the sum.
pub proof fn law_wrapped_sum(a: u32, x: int, y: int)
    requires
        0 <= x,
        0 <= y,
    ensures
        wrapped_sum(wrapped_sum(a, x), y) == wrapped_sum(a, x + y),
{
    lemma_add_mod_noop(a + x, y, 0x1_0000_0000);
    lemma_add_mod_noop((a + x) % 0x1_0000_0000, y, 0x1_0000_0000);
    lemma_mod_twice(a + x, 0x1_0000_0000);
}

} // verus!
