use vstd::arithmetic::div_mod::{lemma_fundamental_div_mod, lemma_fundamental_div_mod_converse};
use vstd::arithmetic::power2::{lemma2_to64, lemma2_to64_rest, lemma_pow2_pos, pow2};
use vstd::bits::{lemma_u64_pow2_no_overflow, lemma_u64_shl_is_mul, lemma_u64_shr_is_div};
use vstd::prelude::*;

verus! {

/// `a / d` rounded toward zero, as integer division in Rust rounds.
#[verifier::opaque]
pub open spec fn div_toward_zero(a: int, d: int) -> int {
    if a >= 0 {
        a / d
    } else {
        -((-a) / d)
    }
}

/// An arithmetic right shift of an `i64` is a division by `2^s` rounded down.
proof fn lemma_i64_shr_is_floor_div(v: i64, s: u32)
    requires
        s < 64,
    ensures
        (v >> s) == v as int / pow2(s as nat) as int,
{
    lemma_pow2_pos(s as nat);
    let d = pow2(s as nat) as int;
    if v >= 0 {
        assert((v >> s) == ((v as u64) >> (s as u64)) as i64) by (bit_vector)
            requires
                v >= 0,
                s < 64,
        ;
        lemma_u64_shr_is_div(v as u64, s as u64);
    } else {
        let w = (-(v + 1)) as u64;
        assert((v >> s) == -(((w >> (s as u64)) as i64)) - 1) by (bit_vector)
            requires
                v < 0,
                s < 64,
                w == (-(v + 1)) as u64,
        ;
        lemma_u64_shr_is_div(w, s as u64);
        let q = w as int / d;
        lemma_fundamental_div_mod(w as int, d);
        let r = w as int % d;
        assert(v as int == (-q - 1) * d + (d - r - 1)) by (nonlinear_arith)
            requires
                w as int == d * q + r,
                v as int == -(w as int) - 1,
        ;
        lemma_fundamental_div_mod_converse(v as int, d, -q - 1, d - r - 1);
    }
}

/// Adding `d - 1` before a division rounded down rounds a negative `a` toward zero.
proof fn lemma_floor_of_biased(a: int, d: int)
    requires
        a < 0,
        d > 0,
    ensures
        (a + d - 1) / d == div_toward_zero(a, d),
{
    reveal(div_toward_zero);
    let q = (-a) / d;
    lemma_fundamental_div_mod(-a, d);
    let r0 = (-a) % d;
    if r0 == 0 {
        assert(a + d - 1 == (-q) * d + (d - 1)) by (nonlinear_arith)
            requires
                -a == d * q + r0,
                r0 == 0,
        ;
        lemma_fundamental_div_mod_converse(a + d - 1, d, -q, d - 1);
    } else {
        assert(a + d - 1 == (-q) * d + (d - 1 - r0)) by (nonlinear_arith)
            requires
                -a == d * q + r0,
        ;
        lemma_fundamental_div_mod_converse(a + d - 1, d, -q, d - 1 - r0);
    }
}

/// The values whose top `b` bits are copies of the sign bit:
/// `-2^(64-b) <= a < 2^(64-b)`.
pub open spec fn rshift_in_range(a: i64, b: u32) -> bool {
    -(pow2((64 - b) as nat) as int) <= a < pow2((64 - b) as nat)
}

/// Division of `a` by `2^b` rounded toward zero, done with shifts: the sign
/// bits, moved down, add `2^b - 1` to a negative `a` before the arithmetic shift.
pub fn od_dct_rshift(a: i64, b: u32) -> (r: i64)
    requires
        1 <= b <= 32,
        rshift_in_range(a, b),
    ensures
        r == div_toward_zero(a as int, pow2(b as nat) as int),
{
    proof {
        lemma_u64_pow2_no_overflow((64 - b) as nat);
        lemma_u64_pow2_no_overflow(b as nat);
        lemma_u64_shl_is_mul(1u64, (64 - b) as u64);
        lemma_u64_shl_is_mul(1u64, b as u64);
    }
    #[verifier::truncate]
    let top = ((a as u64) >> (64 - b)) as i64;
    proof {
        let lim: u64 = 1u64 << (64 - b) as u64;
        let d: u64 = 1u64 << b as u64;
        assert((a >= 0 ==> top == 0) && (a < 0 ==> top == d - 1)) by (bit_vector)
            requires
                1 <= b <= 32,
                lim == 1u64 << (64 - b) as u64,
                d == 1u64 << b as u64,
                -(lim as int) <= a < lim,
                top == ((a as u64) >> ((64 - b) as u32)) as i64,
        ;
        reveal(div_toward_zero);
        lemma_i64_shr_is_floor_div((top + a) as i64, b);
        if a < 0 {
            lemma_floor_of_biased(a as int, d as int);
        }
    }
    (top + a) >> b
}


/// Half of `a`, rounded toward zero.
#[verifier::opaque]
pub open spec fn half(a: int) -> int {
    div_toward_zero(a, 2)
}

/// `v * c / d` rounded to the nearest integer, ties upward.
#[verifier::opaque]
pub open spec fn mul_round(v: int, c: int, d: int) -> int {
    (v * c + d / 2) / d
}

/// Halving toward zero: `|2 * half(a)| <= |a|`, with the sign of `a`.
proof fn lemma_half(a: int)
    ensures
        half(a) == div_toward_zero(a, 2),
        a >= 0 ==> 0 <= 2 * half(a) <= a,
        a < 0 ==> a <= 2 * half(a) <= 0,
{
    reveal(half);
    reveal(div_toward_zero);
}

/// The rounded product lies within half a unit of `v * c / d`.
proof fn lemma_mul_round(v: int, c: int, d: int)
    requires
        d > 0,
    ensures
        d * mul_round(v, c, d) <= v * c + d / 2 < d * mul_round(v, c, d) + d,
{
    reveal(mul_round);
    lemma_fundamental_div_mod(v * c + d / 2, d);
    vstd::arithmetic::div_mod::lemma_mod_bound(v * c + d / 2, d);
}

/// The +1/-1 butterflies and the first stage of the embedded 4-point
/// type-II DCT, as the values `t0..t7` of the lifting network; the inputs
/// enter it permuted (`t0 = x0, t4 = x1, t2 = x2, t6 = x3, t7 = x4, t3 = x5,
/// t5 = x6, t1 = x7`).
#[verifier::opaque]
pub open spec fn fdct8_butterflies(x: Seq<int>) -> Seq<int> {
    let t1a = x[0] - x[7];
    let th1 = half(t1a);
    let t0a = x[0] - th1;
    let t4a = x[1] + x[6];
    let th4 = half(t4a);
    let t5a = x[6] - th4;
    let t3a = x[2] - x[5];
    let t2a = x[2] - half(t3a);
    let t6a = x[3] + x[4];
    let th6 = half(t6a);
    let t7a = th6 - x[4];
    let t0b = t0a + th6;
    let t6b = t0b - t6a;
    let t2b = th4 - t2a;
    let t4b = t2b - t4a;
    seq![t0b, t1a, t2b, t3a, t4b, t5a, t6b, t7a]
}

/// The lifting rotation `a -= [b * c1 / d1]; b += [a * c2 / d2]; a -= [b * c3 / d3]`,
/// where `[.]` rounds; gives the new `(a, b)`.
#[verifier::opaque]
pub open spec fn lift_sub_add_sub(
    a: int,
    b: int,
    c1: int,
    d1: int,
    c2: int,
    d2: int,
    c3: int,
    d3: int,
) -> (int, int) {
    let a1 = a - mul_round(b, c1, d1);
    let b1 = b + mul_round(a1, c2, d2);
    (a1 - mul_round(b1, c3, d3), b1)
}

/// The lifting rotation `a += [b * c1 / d1]; b -= [a * c2 / d2]; a += [b * c3 / d3]`,
/// where `[.]` rounds; gives the new `(a, b)`.
#[verifier::opaque]
pub open spec fn lift_add_sub_add(
    a: int,
    b: int,
    c1: int,
    d1: int,
    c2: int,
    d2: int,
    c3: int,
    d3: int,
) -> (int, int) {
    let a1 = a + mul_round(b, c1, d1);
    let b1 = b - mul_round(a1, c2, d2);
    (a1 + mul_round(b1, c3, d3), b1)
}

/// The first lifting steps of the embedded 4-point type-IV DST on the
/// butterflies' values `t1, t3, t5, t7`: their values before its two final
/// rotations.
#[verifier::opaque]
pub open spec fn fdct8_dst4_head(t1: int, t3: int, t5: int, t7: int) -> Seq<int> {
    let t3b = t3 + mul_round(t5, 19195, 32768);
    let t5b = t5 + mul_round(t3b, 11585, 16384);
    let t3c = t3b - mul_round(t5b, 7489, 8192);
    let t7b = half(t5b) - t7;
    let t5c = t5b - t7b;
    let t3d = half(t1) - t3c;
    let t1b = t1 - t3d;
    seq![t1b, t3d, t5c, t7b]
}

/// The 8-point forward transform: +1/-1 butterflies, then an embedded 4-point
/// type-II DCT (holding a 2-point type-II DCT and a 2-point type-IV DST) and
/// an embedded 4-point type-IV DST, each multiplier a fixed-point constant
/// with its rounding shift. Output `k` is the coefficient of frequency `k`.
pub open spec fn fdct8(x: Seq<int>) -> Seq<int> {
    let t = fdct8_butterflies(x);
    let r04 = lift_sub_add_sub(t[0], t[4], 13573, 32768, 11585, 16384, 13573, 32768);
    let r62 = lift_sub_add_sub(t[6], t[2], 21895, 32768, 15137, 16384, 21895, 32768);
    let u = fdct8_dst4_head(t[1], t[3], t[5], t[7]);
    let r71 = lift_add_sub_add(u[3], u[0], 3227, 32768, 6393, 32768, 3227, 32768);
    let r53 = lift_add_sub_add(u[2], u[1], 2485, 8192, 18205, 32768, 2485, 8192);
    seq![r04.0, r71.1, r62.1, r53.1, r04.1, r53.0, r62.0, r71.0]
}

/// Every value of `s` lies in `[-m, m]`.
pub open spec fn bounded_by(s: Seq<int>, m: int) -> bool {
    forall|k: int| 0 <= k < s.len() ==> -m <= #[trigger] s[k] <= m
}

/// Bounds on the butterflies' outputs for inputs in `[-m, m]`.
proof fn lemma_fdct8_butterflies_bound(x: Seq<int>, m: int)
    requires
        x.len() == 8,
        m >= 0,
        bounded_by(x, m),
    ensures
        fdct8_butterflies(x).len() == 8,
        -(3 * m) <= fdct8_butterflies(x)[0] <= 3 * m,
        -(2 * m) <= fdct8_butterflies(x)[1] <= 2 * m,
        -(3 * m) <= fdct8_butterflies(x)[2] <= 3 * m,
        -(2 * m) <= fdct8_butterflies(x)[3] <= 2 * m,
        -(5 * m) <= fdct8_butterflies(x)[4] <= 5 * m,
        -(2 * m) <= fdct8_butterflies(x)[5] <= 2 * m,
        -(5 * m) <= fdct8_butterflies(x)[6] <= 5 * m,
        -(2 * m) <= fdct8_butterflies(x)[7] <= 2 * m,
{
    reveal(fdct8_butterflies);
    assert(-m <= x[0] <= m && -m <= x[1] <= m && -m <= x[2] <= m && -m <= x[3] <= m);
    assert(-m <= x[4] <= m && -m <= x[5] <= m && -m <= x[6] <= m && -m <= x[7] <= m);
    let t1a = x[0] - x[7];
    assert(-(2 * m) <= t1a <= 2 * m);
    lemma_half(t1a);
    let th1 = half(t1a);
    assert(-(1 * m) <= th1 <= 1 * m);
    let t0a = x[0] - th1;
    assert(-(2 * m) <= t0a <= 2 * m);
    let t4a = x[1] + x[6];
    assert(-(2 * m) <= t4a <= 2 * m);
    lemma_half(t4a);
    let th4 = half(t4a);
    assert(-(1 * m) <= th4 <= 1 * m);
    let t5a = x[6] - th4;
    assert(-(2 * m) <= t5a <= 2 * m);
    let t3a = x[2] - x[5];
    assert(-(2 * m) <= t3a <= 2 * m);
    lemma_half(t3a);
    let h3 = half(t3a);
    assert(-(1 * m) <= h3 <= 1 * m);
    let t2a = x[2] - h3;
    assert(-(2 * m) <= t2a <= 2 * m);
    let t6a = x[3] + x[4];
    assert(-(2 * m) <= t6a <= 2 * m);
    lemma_half(t6a);
    let th6 = half(t6a);
    assert(-(1 * m) <= th6 <= 1 * m);
    let t7a = th6 - x[4];
    assert(-(2 * m) <= t7a <= 2 * m);
    let t0b = t0a + th6;
    assert(-(3 * m) <= t0b <= 3 * m);
    let t6b = t0b - t6a;
    assert(-(5 * m) <= t6b <= 5 * m);
    let t2b = th4 - t2a;
    assert(-(3 * m) <= t2b <= 3 * m);
    let t4b = t2b - t4a;
    assert(-(5 * m) <= t4b <= 5 * m);
}

/// Bounds on the embedded 2-point type-II DCT.
proof fn lemma_fdct8_dct2_bound(a: int, b: int, m: int)
    requires
        m >= 0,
        -(3 * m) <= a <= 3 * m,
        -(5 * m) <= b <= 5 * m,
    ensures
        -(11 * m + 5) <= lift_sub_add_sub(a, b, 13573, 32768, 11585, 16384, 13573, 32768).0 <= 11 * m + 5,
        -(10 * m + 3) <= lift_sub_add_sub(a, b, 13573, 32768, 11585, 16384, 13573, 32768).1 <= 10 * m + 3,
{
    reveal(lift_sub_add_sub);
    lemma_mul_round(b, 13573, 32768);
    let t0c = a - mul_round(b, 13573, 32768);
    assert(-(6 * m + 2) <= t0c <= 6 * m + 2);
    lemma_mul_round(t0c, 11585, 16384);
    let t4c = b + mul_round(t0c, 11585, 16384);
    assert(-(10 * m + 3) <= t4c <= 10 * m + 3);
    lemma_mul_round(t4c, 13573, 32768);
    let t0d = t0c - mul_round(t4c, 13573, 32768);
    assert(-(11 * m + 5) <= t0d <= 11 * m + 5);
}

/// Bounds on the embedded 2-point type-IV DST.
proof fn lemma_fdct8_dst2_bound(a: int, b: int, m: int)
    requires
        m >= 0,
        -(5 * m) <= a <= 5 * m,
        -(3 * m) <= b <= 3 * m,
    ensures
        -(16 * m + 7) <= lift_sub_add_sub(a, b, 21895, 32768, 15137, 16384, 21895, 32768).0 <= 16 * m + 7,
        -(11 * m + 4) <= lift_sub_add_sub(a, b, 21895, 32768, 15137, 16384, 21895, 32768).1 <= 11 * m + 4,
{
    reveal(lift_sub_add_sub);
    lemma_mul_round(b, 21895, 32768);
    let t6c = a - mul_round(b, 21895, 32768);
    assert(-(8 * m + 2) <= t6c <= 8 * m + 2);
    lemma_mul_round(t6c, 15137, 16384);
    let t2c = b + mul_round(t6c, 15137, 16384);
    assert(-(11 * m + 4) <= t2c <= 11 * m + 4);
    lemma_mul_round(t2c, 21895, 32768);
    let t6d = t6c - mul_round(t2c, 21895, 32768);
    assert(-(16 * m + 7) <= t6d <= 16 * m + 7);
}

/// Bounds on the type-IV DST's rotation of `t7` and `t1`.
proof fn lemma_fdct8_rot71_bound(a: int, b: int, m: int)
    requires
        m >= 0,
        -(5 * m + 2) <= a <= 5 * m + 2,
        -(12 * m + 7) <= b <= 12 * m + 7,
    ensures
        -(9 * m + 8) <= lift_add_sub_add(a, b, 3227, 32768, 6393, 32768, 3227, 32768).0 <= 9 * m + 8,
        -(14 * m + 10) <= lift_add_sub_add(a, b, 3227, 32768, 6393, 32768, 3227, 32768).1 <= 14 * m + 10,
{
    reveal(lift_add_sub_add);
    lemma_mul_round(b, 3227, 32768);
    let t7c = a + mul_round(b, 3227, 32768);
    assert(-(7 * m + 5) <= t7c <= 7 * m + 5);
    lemma_mul_round(t7c, 6393, 32768);
    let t1c = b - mul_round(t7c, 6393, 32768);
    assert(-(14 * m + 10) <= t1c <= 14 * m + 10);
    lemma_mul_round(t1c, 3227, 32768);
    let t7d = t7c + mul_round(t1c, 3227, 32768);
    assert(-(9 * m + 8) <= t7d <= 9 * m + 8);
}

/// Bounds on the type-IV DST's rotation of `t5` and `t3`.
proof fn lemma_fdct8_rot53_bound(a: int, b: int, m: int)
    requires
        m >= 0,
        -(10 * m + 5) <= a <= 10 * m + 5,
        -(10 * m + 7) <= b <= 10 * m + 7,
    ensures
        -(20 * m + 15) <= lift_add_sub_add(a, b, 2485, 8192, 18205, 32768, 2485, 8192).0 <= 20 * m + 15,
        -(18 * m + 14) <= lift_add_sub_add(a, b, 2485, 8192, 18205, 32768, 2485, 8192).1 <= 18 * m + 14,
{
    reveal(lift_add_sub_add);
    lemma_mul_round(b, 2485, 8192);
    let t5d = a + mul_round(b, 2485, 8192);
    assert(-(14 * m + 9) <= t5d <= 14 * m + 9);
    lemma_mul_round(t5d, 18205, 32768);
    let t3e = b - mul_round(t5d, 18205, 32768);
    assert(-(18 * m + 14) <= t3e <= 18 * m + 14);
    lemma_mul_round(t3e, 2485, 8192);
    let t5e = t5d + mul_round(t3e, 2485, 8192);
    assert(-(20 * m + 15) <= t5e <= 20 * m + 15);
}

/// Bounds on the first lifting steps of the embedded 4-point type-IV DST.
proof fn lemma_fdct8_dst4_head_bound(t1: int, t3: int, t5: int, t7: int, m: int)
    requires
        m >= 0,
        -(2 * m) <= t1 <= 2 * m,
        -(2 * m) <= t3 <= 2 * m,
        -(2 * m) <= t5 <= 2 * m,
        -(2 * m) <= t7 <= 2 * m,
    ensures
        -(12 * m + 7) <= fdct8_dst4_head(t1, t3, t5, t7)[0] <= 12 * m + 7,
        -(10 * m + 7) <= fdct8_dst4_head(t1, t3, t5, t7)[1] <= 10 * m + 7,
        -(10 * m + 5) <= fdct8_dst4_head(t1, t3, t5, t7)[2] <= 10 * m + 5,
        -(5 * m + 2) <= fdct8_dst4_head(t1, t3, t5, t7)[3] <= 5 * m + 2,
{
    reveal(fdct8_dst4_head);
    let th1 = half(t1);
    lemma_half(t1);
    assert(-(1 * m) <= th1 <= 1 * m);
    lemma_mul_round(t5, 19195, 32768);
    let t3b = t3 + mul_round(t5, 19195, 32768);
    assert(-(4 * m + 2) <= t3b <= 4 * m + 2);
    lemma_mul_round(t3b, 11585, 16384);
    let t5b = t5 + mul_round(t3b, 11585, 16384);
    assert(-(5 * m + 3) <= t5b <= 5 * m + 3);
    lemma_mul_round(t5b, 7489, 8192);
    let t3c = t3b - mul_round(t5b, 7489, 8192);
    assert(-(9 * m + 7) <= t3c <= 9 * m + 7);
    lemma_half(t5b);
    let h5 = half(t5b);
    assert(-(3 * m + 2) <= h5 <= 3 * m + 2);
    let t7b = h5 - t7;
    assert(-(5 * m + 2) <= t7b <= 5 * m + 2);
    let t5c = t5b - t7b;
    assert(-(10 * m + 5) <= t5c <= 10 * m + 5);
    let t3d = th1 - t3c;
    assert(-(10 * m + 7) <= t3d <= 10 * m + 7);
    let t1b = t1 - t3d;
    assert(-(12 * m + 7) <= t1b <= 12 * m + 7);
}

/// The transform grows magnitudes by at most a factor of 20, give or take the rounding.
pub proof fn lemma_fdct8_bound(x: Seq<int>, m: int)
    requires
        x.len() == 8,
        m >= 0,
        bounded_by(x, m),
    ensures
        fdct8(x).len() == 8,
        bounded_by(fdct8(x), 20 * m + 20),
{
    let t = fdct8_butterflies(x);
    lemma_fdct8_butterflies_bound(x, m);
    lemma_fdct8_dct2_bound(t[0], t[4], m);
    lemma_fdct8_dst2_bound(t[6], t[2], m);
    lemma_fdct8_dst4_head_bound(t[1], t[3], t[5], t[7], m);
    let u = fdct8_dst4_head(t[1], t[3], t[5], t[7]);
    lemma_fdct8_rot71_bound(u[3], u[0], m);
    lemma_fdct8_rot53_bound(u[2], u[1], m);
    let y = fdct8(x);
    assert(-(20 * m + 20) <= y[0] <= 20 * m + 20 && -(20 * m + 20) <= y[1] <= 20 * m + 20);
    assert(-(20 * m + 20) <= y[2] <= 20 * m + 20 && -(20 * m + 20) <= y[3] <= 20 * m + 20);
    assert(-(20 * m + 20) <= y[4] <= 20 * m + 20 && -(20 * m + 20) <= y[5] <= 20 * m + 20);
    assert(-(20 * m + 20) <= y[6] <= 20 * m + 20 && -(20 * m + 20) <= y[7] <= 20 * m + 20);
}

/// Largest input magnitude that [`od_bin_fdct8`] takes.
pub const FDCT8_INPUT_MAX: i64 = 0x100_0000_0000;

/// `(v * c + 2^(s-1)) >> s`: the fixed-point product `v * c / 2^s`, rounded.
fn od_mul_round(v: i64, c: i64, s: u32) -> (r: i64)
    requires
        13 <= s <= 15,
        0 <= c < 32768,
        -0x8000_0000_0000 <= v <= 0x8000_0000_0000,
    ensures
        r == mul_round(v as int, c as int, pow2(s as nat) as int),
        c < pow2(s as nat) ==> -(v as int) - 1 <= r <= v + 1 || (v as int) - 1 <= r <= -v + 1,
{
    proof {
        reveal(mul_round);
        lemma2_to64();
        assert(-0x8000_0000_0000 * 32768 <= v * c <= 0x8000_0000_0000 * 32768) by (nonlinear_arith)
            requires
                0 <= c < 32768,
                -0x8000_0000_0000 <= v <= 0x8000_0000_0000,
        ;
    }
    let half_unit: i64 = 1i64 << (s - 1);
    proof {
        assert(half_unit == 4096 || half_unit == 8192 || half_unit == 16384) by (bit_vector)
            requires
                13 <= s <= 15,
                half_unit == 1i64 << ((s - 1) as u32),
        ;
        assert(s == 13 ==> half_unit == 4096) by (bit_vector)
            requires half_unit == 1i64 << ((s - 1) as u32);
        assert(s == 14 ==> half_unit == 8192) by (bit_vector)
            requires half_unit == 1i64 << ((s - 1) as u32);
        assert(s == 15 ==> half_unit == 16384) by (bit_vector)
            requires half_unit == 1i64 << ((s - 1) as u32);
        lemma_i64_shr_is_floor_div((v * c + half_unit) as i64, s);
        let d = pow2(s as nat) as int;
        let r = ((v * c + half_unit) as i64 >> s) as int;
        lemma_mul_round(v as int, c as int, d);
        if c < d {
            if v >= 0 {
                assert(-(v as int) - 1 <= r <= v + 1) by (nonlinear_arith)
                    requires
                        d * r <= v * c + d / 2 < d * r + d,
                        0 <= c < d,
                        v >= 0,
                ;
            } else {
                assert((v as int) - 1 <= r <= -v + 1) by (nonlinear_arith)
                    requires
                        d * r <= v * c + d / 2 < d * r + d,
                        0 <= c < d,
                        v < 0,
                ;
            }
        }
    }
    (v * c + half_unit) >> s
}

/// Largest magnitude of a value entering a lifting rotation.
const LIFT_INPUT_MAX: i64 = 0x1000_0000_0000;

/// The lifting rotation `a -= (b * c1 + 2^(s1-1)) >> s1; b += (a * c2 + ...) >> s2;
/// a -= (b * c3 + ...) >> s3`; gives the new `(a, b)`.
fn od_lift_sub_add_sub(a: i64, b: i64, c1: i64, s1: u32, c2: i64, s2: u32, c3: i64, s3: u32) -> (r: (i64, i64))
    requires
        13 <= s1 <= 15,
        13 <= s2 <= 15,
        13 <= s3 <= 15,
        0 <= c1 < pow2(s1 as nat),
        0 <= c2 < pow2(s2 as nat),
        0 <= c3 < pow2(s3 as nat),
        -LIFT_INPUT_MAX <= a <= LIFT_INPUT_MAX,
        -LIFT_INPUT_MAX <= b <= LIFT_INPUT_MAX,
    ensures
        (r.0 as int, r.1 as int) == lift_sub_add_sub(
            a as int,
            b as int,
            c1 as int,
            pow2(s1 as nat) as int,
            c2 as int,
            pow2(s2 as nat) as int,
            c3 as int,
            pow2(s3 as nat) as int,
        ),
{
    proof {
        lemma2_to64();
        reveal(lift_sub_add_sub);
    }
    let a1 = a - od_mul_round(b, c1, s1);
    let b1 = b + od_mul_round(a1, c2, s2);
    (a1 - od_mul_round(b1, c3, s3), b1)
}

/// The lifting rotation `a += (b * c1 + 2^(s1-1)) >> s1; b -= (a * c2 + ...) >> s2;
/// a += (b * c3 + ...) >> s3`; gives the new `(a, b)`.
fn od_lift_add_sub_add(a: i64, b: i64, c1: i64, s1: u32, c2: i64, s2: u32, c3: i64, s3: u32) -> (r: (i64, i64))
    requires
        13 <= s1 <= 15,
        13 <= s2 <= 15,
        13 <= s3 <= 15,
        0 <= c1 < pow2(s1 as nat),
        0 <= c2 < pow2(s2 as nat),
        0 <= c3 < pow2(s3 as nat),
        -LIFT_INPUT_MAX <= a <= LIFT_INPUT_MAX,
        -LIFT_INPUT_MAX <= b <= LIFT_INPUT_MAX,
    ensures
        (r.0 as int, r.1 as int) == lift_add_sub_add(
            a as int,
            b as int,
            c1 as int,
            pow2(s1 as nat) as int,
            c2 as int,
            pow2(s2 as nat) as int,
            c3 as int,
            pow2(s3 as nat) as int,
        ),
{
    proof {
        lemma2_to64();
        reveal(lift_add_sub_add);
    }
    let a1 = a + od_mul_round(b, c1, s1);
    let b1 = b - od_mul_round(a1, c2, s2);
    (a1 + od_mul_round(b1, c3, s3), b1)
}

/// The first lifting steps of the embedded 4-point type-IV DST; gives the
/// new `(t1, t3, t5, t7)`.
fn od_fdct8_dst4_head(t1: i64, t3: i64, t5: i64, t7: i64) -> (r: (i64, i64, i64, i64))
    requires
        -LIFT_INPUT_MAX <= t1 <= LIFT_INPUT_MAX,
        -LIFT_INPUT_MAX <= t3 <= LIFT_INPUT_MAX,
        -LIFT_INPUT_MAX <= t5 <= LIFT_INPUT_MAX,
        -LIFT_INPUT_MAX <= t7 <= LIFT_INPUT_MAX,
    ensures
        seq![r.0 as int, r.1 as int, r.2 as int, r.3 as int] == fdct8_dst4_head(
            t1 as int,
            t3 as int,
            t5 as int,
            t7 as int,
        ),
{
    proof {
        lemma2_to64();
        lemma2_to64_rest();
        lemma_half(t1 as int);
    }
    let th1 = od_dct_rshift(t1, 1);
    let mut t1 = t1;
    let mut t3 = t3;
    let mut t5 = t5;
    let mut t7 = t7;
    t3 += od_mul_round(t5, 19195, 15);
    t5 += od_mul_round(t3, 11585, 14);
    t3 -= od_mul_round(t5, 7489, 13);
    proof {
        lemma_half(t5 as int);
    }
    t7 = od_dct_rshift(t5, 1) - t7;
    t5 -= t7;
    t3 = th1 - t3;
    t1 -= t3;
    proof {
        reveal(fdct8_dst4_head);
    }
    (t1, t3, t5, t7)
}

/// Values `off, off + stride, ..., off + 7 * stride` of `s`.
pub open spec fn strided8(s: Seq<i64>, off: int, stride: int) -> Seq<int> {
    Seq::new(8, |k: int| s[off + k * stride] as int)
}

/// Writes to `y[y_off..y_off + 8]` the transform of the eight values of `x`
/// that start at `x_off`, `x_stride` apart.
pub fn od_bin_fdct8(y: &mut [i64], y_off: usize, x: &[i64], x_off: usize, x_stride: usize)
    requires
        y_off + 8 <= old(y).len(),
        x_off + 7 * x_stride < x.len(),
        bounded_by(strided8(x@, x_off as int, x_stride as int), FDCT8_INPUT_MAX as int),
    ensures
        final(y).len() == old(y).len(),
        forall|k: int| 0 <= k < 8 ==> final(y)[y_off + k] == fdct8(strided8(x@, x_off as int, x_stride as int))[k],
        forall|n: int| 0 <= n < old(y).len() && !(y_off <= n < y_off + 8) ==> final(y)[n] == old(y)[n],
{
    let ghost xs = strided8(x@, x_off as int, x_stride as int);
    proof {
        lemma2_to64();
        lemma2_to64_rest();
        assert(xs[0] == x[x_off as int]);
        assert(xs[1] == x[x_off + x_stride]);
        assert(xs[2] == x[x_off + 2 * x_stride]);
        assert(xs[3] == x[x_off + 3 * x_stride]);
        assert(xs[4] == x[x_off + 4 * x_stride]);
        assert(xs[5] == x[x_off + 5 * x_stride]);
        assert(xs[6] == x[x_off + 6 * x_stride]);
        assert(xs[7] == x[x_off + 7 * x_stride]);
        let m = FDCT8_INPUT_MAX as int;
        assert(-m <= xs[0] <= m && -m <= xs[1] <= m && -m <= xs[2] <= m && -m <= xs[3] <= m);
        assert(-m <= xs[4] <= m && -m <= xs[5] <= m && -m <= xs[6] <= m && -m <= xs[7] <= m);
    }
    // Initial permutation
    let mut t0 = x[x_off];
    let mut t4 = x[x_off + x_stride];
    let mut t2 = x[x_off + 2 * x_stride];
    let mut t6 = x[x_off + 3 * x_stride];
    let mut t7 = x[x_off + 4 * x_stride];
    let mut t3 = x[x_off + 5 * x_stride];
    let mut t5 = x[x_off + 6 * x_stride];
    let mut t1 = x[x_off + 7 * x_stride];
    // +1/-1 butterflies
    t1 = t0 - t1;
    proof {
        lemma_half(t1 as int);
    }
    let th1 = od_dct_rshift(t1, 1);
    t0 -= th1;
    t4 += t5;
    proof {
        lemma_half(t4 as int);
    }
    let th4 = od_dct_rshift(t4, 1);
    t5 -= th4;
    t3 = t2 - t3;
    proof {
        lemma_half(t3 as int);
    }
    t2 -= od_dct_rshift(t3, 1);
    t6 += t7;
    proof {
        lemma_half(t6 as int);
    }
    let th6 = od_dct_rshift(t6, 1);
    t7 = th6 - t7;
    // + Embedded 4-point type-II DCT
    t0 += th6;
    t6 = t0 - t6;
    t2 = th4 - t2;
    t4 = t2 - t4;
    let ghost t = fdct8_butterflies(xs);
    proof {
        reveal(fdct8_butterflies);
        lemma_fdct8_butterflies_bound(xs, FDCT8_INPUT_MAX as int);
        assert(t0 == t[0] && t1 == t[1] && t2 == t[2] && t3 == t[3]);
        assert(t4 == t[4] && t5 == t[5] && t6 == t[6] && t7 == t[7]);
    }
    // |-+ Embedded 2-point type-II DCT
    let (t0, t4) = od_lift_sub_add_sub(t0, t4, 13573, 15, 11585, 14, 13573, 15);
    // |-+ Embedded 2-point type-IV DST
    let (t6, t2) = od_lift_sub_add_sub(t6, t2, 21895, 15, 15137, 14, 21895, 15);
    // + Embedded 4-point type-IV DST
    proof {
        lemma_fdct8_dst4_head_bound(t[1], t[3], t[5], t[7], FDCT8_INPUT_MAX as int);
    }
    let (t1, t3, t5, t7) = od_fdct8_dst4_head(t1, t3, t5, t7);
    let ghost u = fdct8_dst4_head(t[1], t[3], t[5], t[7]);
    let (t7, t1) = od_lift_add_sub_add(t7, t1, 3227, 15, 6393, 15, 3227, 15);
    let (t5, t3) = od_lift_add_sub_add(t5, t3, 2485, 13, 18205, 15, 2485, 13);
    proof {
        let ys = fdct8(xs);
        assert(t0 == ys[0] && t1 == ys[1] && t2 == ys[2] && t3 == ys[3]);
        assert(t4 == ys[4] && t5 == ys[5] && t6 == ys[6] && t7 == ys[7]);
    }
    y[y_off] = t0;
    y[y_off + 1] = t1;
    y[y_off + 2] = t2;
    y[y_off + 3] = t3;
    y[y_off + 4] = t4;
    y[y_off + 5] = t5;
    y[y_off + 6] = t6;
    y[y_off + 7] = t7;
}

/// Column `c` of a row-major 8x8 block.
pub open spec fn column8(b: Seq<int>, c: int) -> Seq<int> {
    Seq::new(8, |k: int| b[c + 8 * k])
}

/// The transform of each column of `b`, stored as the rows of a new block.
pub open spec fn fdct8_columns(b: Seq<int>) -> Seq<int> {
    Seq::new(64, |n: int| fdct8(column8(b, n / 8))[n % 8])
}

/// The separable 2-D transform of a row-major 8x8 block: a pass over its
/// columns, then a pass over the columns of that result. Entry `8 * i + j` is
/// the coefficient of vertical frequency `i` and horizontal frequency `j`.
pub open spec fn fdct8x8(b: Seq<int>) -> Seq<int> {
    fdct8_columns(fdct8_columns(b))
}

/// The 8x8 block of `s` whose rows start `stride` apart, row-major.
pub open spec fn block8(s: Seq<i32>, stride: int) -> Seq<int> {
    Seq::new(64, |n: int| s[(n / 8) * stride + n % 8] as int)
}

/// The values of `s` as integers.
pub open spec fn ints(s: Seq<i64>) -> Seq<int> {
    Seq::new(s.len(), |n: int| s[n] as int)
}

/// A pass of the transform grows magnitudes by at most a factor of 20, give or take the rounding.
pub proof fn lemma_fdct8_columns_bound(b: Seq<int>, m: int)
    requires
        b.len() == 64,
        m >= 0,
        bounded_by(b, m),
    ensures
        fdct8_columns(b).len() == 64,
        bounded_by(fdct8_columns(b), 20 * m + 20),
{
    assert forall|c: int| 0 <= c < 8 implies bounded_by(#[trigger] fdct8(column8(b, c)), 20 * m + 20)
        && fdct8(column8(b, c)).len() == 8 by {
        assert forall|k: int| 0 <= k < 8 implies -m <= #[trigger] column8(b, c)[k] <= m by {
            assert(0 <= c + 8 * k < 64);
        }
        lemma_fdct8_bound(column8(b, c), m);
    }
    let y = fdct8_columns(b);
    assert forall|n: int| 0 <= n < 64 implies -(20 * m + 20) <= #[trigger] y[n] <= 20 * m + 20 by {
        let c = n / 8;
        assert(0 <= c < 8);
        assert(fdct8(column8(b, c)).len() == 8);
        assert(0 <= n % 8 < 8);
    }
}

/// Largest input magnitude that [`od_bin_fdct8x8`] takes: both passes then
/// stay within `i32`.
pub const FDCT8X8_INPUT_MAX: i32 = 0x40_0000;

/// Replaces the 8x8 block of `data` whose rows start `stride` apart by its
/// 2-D transform.
pub fn od_bin_fdct8x8(data: &mut [i32], stride: usize)
    requires
        8 <= stride,
        7 * stride + 8 <= old(data).len(),
        bounded_by(block8(old(data)@, stride as int), FDCT8X8_INPUT_MAX as int),
    ensures
        final(data).len() == old(data).len(),
        forall|i: int, j: int|
            0 <= i < 8 && 0 <= j < 8 ==> #[trigger] final(data)[i * stride + j] == fdct8x8(
                block8(old(data)@, stride as int),
            )[i * 8 + j],
        forall|n: int|
            0 <= n < old(data).len() && (n >= 8 * stride || n % (stride as int) >= 8)
                ==> final(data)[n] == old(data)[n],
{
    let ghost b = block8(data@, stride as int);
    let ghost mid = fdct8_columns(b);
    let ghost out = fdct8x8(b);
    proof {
        lemma_fdct8_columns_bound(b, FDCT8X8_INPUT_MAX as int);
        lemma_fdct8_columns_bound(mid, 20 * FDCT8X8_INPUT_MAX + 20);
    }
    let mut w = [0i64; 64];
    let mut i: usize = 0;
    while i < 8
        invariant
            i <= 8,
            8 <= stride,
            7 * stride + 8 <= data.len(),
            b == block8(data@, stride as int),
            forall|n: int| 0 <= n < 8 * i ==> w[n] == #[trigger] b[n],
        decreases 8 - i,
    {
        proof {
            assert(i * stride <= 7 * stride) by (nonlinear_arith)
                requires
                    i < 8,
            ;
        }
        let row = i * stride;
        let mut j: usize = 0;
        while j < 8
            invariant
                i < 8,
                j <= 8,
                row == i * stride,
                8 <= stride,
                7 * stride + 8 <= data.len(),
                b == block8(data@, stride as int),
                forall|n: int| 0 <= n < 8 * i + j ==> w[n] == #[trigger] b[n],
            decreases 8 - j,
        {
            proof {
                assert(i * stride <= 7 * stride) by (nonlinear_arith)
                    requires
                        i < 8,
            ;
                let n = 8 * i + j;
                assert(n / 8 == i && n % 8 == j);
            }
            w[8 * i + j] = data[row + j] as i64;
            j += 1;
        }
        i += 1;
    }
    assert(ints(w@) =~= b);
    let mut z = [0i64; 64];
    let mut c: usize = 0;
    while c < 8
        invariant
            c <= 8,
            ints(w@) == b,
            bounded_by(b, FDCT8X8_INPUT_MAX as int),
            mid == fdct8_columns(b),
            forall|n: int| 0 <= n < 8 * c ==> z[n] == #[trigger] mid[n],
        decreases 8 - c,
    {
        proof {
            assert(strided8(w@, c as int, 8) =~= column8(b, c as int));
            assert forall|k: int| 0 <= k < 8 implies -(FDCT8_INPUT_MAX as int) <= #[trigger] strided8(
                w@,
                c as int,
                8,
            )[k] <= FDCT8_INPUT_MAX by {
                assert(0 <= c + 8 * k < 64);
                assert(b[c + 8 * k] == strided8(w@, c as int, 8)[k]);
            }
        }
        od_bin_fdct8(&mut z, 8 * c, &w, c, 8);
        proof {
            assert forall|n: int| 8 * c <= n < 8 * c + 8 implies z[n] == #[trigger] mid[n] by {
                assert(n / 8 == c && n % 8 == n - 8 * c);
            }
        }
        c += 1;
    }
    assert(ints(z@) =~= mid);
    let mut c: usize = 0;
    while c < 8
        invariant
            c <= 8,
            ints(z@) == mid,
            bounded_by(mid, 20 * FDCT8X8_INPUT_MAX + 20),
            bounded_by(out, 20 * (20 * FDCT8X8_INPUT_MAX + 20) + 20),
            out == fdct8_columns(mid),
            forall|n: int| 0 <= n < 8 * c ==> w[n] == #[trigger] out[n],
        decreases 8 - c,
    {
        proof {
            assert(strided8(z@, c as int, 8) =~= column8(mid, c as int));
            assert forall|k: int| 0 <= k < 8 implies -(FDCT8_INPUT_MAX as int) <= #[trigger] strided8(
                z@,
                c as int,
                8,
            )[k] <= FDCT8_INPUT_MAX by {
                assert(0 <= c + 8 * k < 64);
                assert(mid[c + 8 * k] == strided8(z@, c as int, 8)[k]);
            }
        }
        od_bin_fdct8(&mut w, 8 * c, &z, c, 8);
        proof {
            assert forall|n: int| 8 * c <= n < 8 * c + 8 implies w[n] == #[trigger] out[n] by {
                assert(n / 8 == c && n % 8 == n - 8 * c);
            }
        }
        c += 1;
    }
    let ghost before = data@;
    let mut i: usize = 0;
    while i < 8
        invariant
            i <= 8,
            8 <= stride,
            7 * stride + 8 <= data.len(),
            data.len() == before.len(),
            out.len() == 64,
            bounded_by(out, 20 * (20 * FDCT8X8_INPUT_MAX + 20) + 20),
            forall|n: int| 0 <= n < 64 ==> w[n] == #[trigger] out[n],
            forall|r: int, k: int| 0 <= r < i && 0 <= k < 8 ==> #[trigger] data[r * stride + k] == out[r * 8 + k],
            forall|n: int|
                0 <= n < before.len() && (n >= i * stride || n % (stride as int) >= 8)
                    ==> data[n] == before[n],
        decreases 8 - i,
    {
        proof {
            assert(i * stride <= 7 * stride) by (nonlinear_arith)
                requires
                    i < 8,
            ;
        }
        let row = i * stride;
        let mut j: usize = 0;
        while j < 8
            invariant
                i < 8,
                j <= 8,
                row == i * stride,
                8 <= stride,
                7 * stride + 8 <= data.len(),
                data.len() == before.len(),
                out.len() == 64,
                bounded_by(out, 20 * (20 * FDCT8X8_INPUT_MAX + 20) + 20),
                forall|n: int| 0 <= n < 64 ==> w[n] == #[trigger] out[n],
                forall|r: int, k: int|
                    0 <= r < i && 0 <= k < 8 ==> #[trigger] data[r * stride + k] == out[r * 8 + k],
                forall|k: int| 0 <= k < j ==> #[trigger] data[row + k] == out[i * 8 + k],
                forall|n: int|
                    0 <= n < before.len() && (n >= i * stride + j || n % (stride as int) >= 8)
                        ==> data[n] == before[n],
            decreases 8 - j,
        {
            proof {
                assert(i * stride <= 7 * stride) by (nonlinear_arith)
                    requires
                        i < 8,
            ;
                assert(-0x7fff_ffff <= out[8 * i + j] <= 0x7fff_ffff);
                vstd::arithmetic::div_mod::lemma_fundamental_div_mod_converse(
                    (row + j) as int,
                    stride as int,
                    i as int,
                    j as int,
                );
            }
            data[row + j] = w[8 * i + j] as i32;
            proof {
                assert forall|r: int, k: int| #![trigger data[r * stride + k]]
                    0 <= r < i && 0 <= k < 8 implies r * stride + k < row by {
                    assert(r * stride + k < (r + 1) * stride) by (nonlinear_arith)
                        requires
                            k < 8 <= stride,
                    ;
                    assert((r + 1) * stride <= i * stride) by (nonlinear_arith)
                        requires
                            r < i,
                            stride >= 0,
                    ;
                }
            }
            j += 1;
        }
        proof {
            assert((i + 1) * stride == i * stride + stride) by (nonlinear_arith);
            assert forall|n: int|
                0 <= n < before.len() && (n >= (i + 1) * stride || n % (stride as int) >= 8)
                    implies data[n] == before[n] by {
                if n % (stride as int) < 8 && n >= (i + 1) * stride {
                    assert(n >= i * stride + 8);
                }
            }
        }
        i += 1;
    }
}

} // verus!
