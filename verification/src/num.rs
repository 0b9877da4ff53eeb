//! Numbers of a document: a binary64 bit pattern together with its decimal text.
//!
//! Comparisons and the conversion to an integer are decided on the bit pattern.

use vstd::arithmetic::div_mod::{
    lemma_div_multiples_vanish, lemma_div_pos_is_pos, lemma_fundamental_div_mod,
};
use vstd::arithmetic::power2::{lemma2_to64, lemma_pow2_adds, lemma_pow2_pos, pow2};
use vstd::bits::lemma_u64_shr_is_div;
use vstd::prelude::*;

verus! {

/// The bit pattern of positive zero.
pub const ZERO: u64 = 0;

/// The bit pattern of one less an epsilon.
pub const ONE_LESS_EPSILON: u64 = 0x3fef_ffff_ffff_fffe;

/// The bit pattern of one plus an epsilon.
pub const ONE_PLUS_EPSILON: u64 = 0x3ff0_0000_0000_0001;

/// A binary64 number: its bit pattern, and the text that it prints as.
#[derive(Debug)]
pub struct Num {
    pub bits: u64,
    pub text: String,
}

/// What a `Num` holds.
#[verifier::ext_equal]
pub struct NumView {
    pub bits: u64,
    pub text: Seq<char>,
}

/// The bit pattern without its sign.
pub open spec fn magnitude(bits: u64) -> int {
    bits as int % 0x8000_0000_0000_0000
}

/// Whether the sign bit is set.
pub open spec fn negative(bits: u64) -> bool {
    bits as int >= 0x8000_0000_0000_0000
}

/// Whether the pattern is that of no number.
pub open spec fn is_nan(bits: u64) -> bool {
    magnitude(bits) > 0x7ff0_0000_0000_0000
}

/// An integer by which numbers are ordered; both zeros have the same.
pub open spec fn order_key(bits: u64) -> int {
    if negative(bits) {
        -magnitude(bits)
    } else {
        magnitude(bits)
    }
}

/// The number `a` is less than the number `b`.
pub open spec fn less(a: u64, b: u64) -> bool {
    !is_nan(a) && !is_nan(b) && order_key(a) < order_key(b)
}

/// The numbers are equal.
pub open spec fn equal(a: u64, b: u64) -> bool {
    !is_nan(a) && !is_nan(b) && order_key(a) == order_key(b)
}

/// The number `a` is not above the number `b`.
pub open spec fn at_most(a: u64, b: u64) -> bool {
    less(a, b) || equal(a, b)
}

/// The number is above zero.
pub open spec fn positive(a: u64) -> bool {
    less(ZERO, a)
}

/// The integer part of the number's absolute value.
pub open spec fn whole(bits: u64) -> int {
    let e = magnitude(bits) / 0x10_0000_0000_0000;
    let m = 0x10_0000_0000_0000 + magnitude(bits) % 0x10_0000_0000_0000;
    if e < 1023 {
        0
    } else if e < 1075 {
        m / (pow2((1075 - e) as nat) as int)
    } else {
        m * pow2((e - 1075) as nat)
    }
}

/// The number rounded toward zero, kept within 32 bits; zero where it is none.
pub open spec fn truncated(bits: u64) -> int {
    if is_nan(bits) {
        0
    } else if negative(bits) {
        if whole(bits) > 0x8000_0000 {
            -0x8000_0000
        } else {
            -whole(bits)
        }
    } else if whole(bits) > 0x7fff_ffff {
        0x7fff_ffff
    } else {
        whole(bits)
    }
}

/// Whether the pattern is that of no number.
pub fn nan(bits: u64) -> (r: bool)
    ensures
        r == is_nan(bits),
{
    bits % 0x8000_0000_0000_0000 > 0x7ff0_0000_0000_0000
}

/// Whether the first number is less than the second.
pub fn num_lt(a: u64, b: u64) -> (r: bool)
    ensures
        r == less(a, b),
{
    let m: u64 = a % 0x8000_0000_0000_0000;
    let n: u64 = b % 0x8000_0000_0000_0000;
    if nan(a) || nan(b) {
        false
    } else if a >= 0x8000_0000_0000_0000 {
        if b >= 0x8000_0000_0000_0000 {
            n < m
        } else {
            m != 0 || n != 0
        }
    } else if b >= 0x8000_0000_0000_0000 {
        false
    } else {
        m < n
    }
}

/// Whether the two numbers are equal.
pub fn num_eq(a: u64, b: u64) -> (r: bool)
    ensures
        r == equal(a, b),
{
    !nan(a) && !nan(b) && !num_lt(a, b) && !num_lt(b, a)
}

/// No number is less than itself, and of two distinct numbers one is less.
pub proof fn law_order_is_total(a: u64, b: u64)
    requires
        !is_nan(a),
        !is_nan(b),
    ensures
        !less(a, a),
        less(a, b) || equal(a, b) || less(b, a),
        less(a, b) ==> !less(b, a) && !equal(a, b),
{
}

impl Num {
    /// What the number holds.
    pub open spec fn view(&self) -> NumView {
        NumView { bits: self.bits, text: self.text@ }
    }

    /// A copy of the number.
    pub fn copy(&self) -> (r: Num)
        ensures
            r@ == self@,
    {
        Num { bits: self.bits, text: self.text.clone() }
    }

    /// Whether the number is above zero.
    pub fn is_positive(&self) -> (r: bool)
        ensures
            r == positive(self@.bits),
    {
        num_lt(ZERO, self.bits)
    }

    /// Whether the number equals zero.
    pub fn is_zero(&self) -> (r: bool)
        ensures
            r == equal(self@.bits, ZERO),
    {
        num_eq(self.bits, ZERO)
    }

    /// The number rounded toward zero, kept within 32 bits.
    pub fn to_i32(&self) -> (r: i32)
        ensures
            r == truncated(self@.bits),
    {
        let bits = self.bits;
        if nan(bits) {
            return 0;
        }
        let mag: u64 = bits % 0x8000_0000_0000_0000;
        let e: u64 = mag / 0x10_0000_0000_0000;
        let m: u64 = 0x10_0000_0000_0000 + mag % 0x10_0000_0000_0000;
        let w: u64 = if e < 1023 {
            0
        } else if e < 1075 {
            let shift: u64 = 1075 - e;
            proof {
                lemma_u64_shr_is_div(m, shift);
                lemma_pow2_pos(shift as nat);
                assert(m as int / pow2(shift as nat) as int <= m as int) by (nonlinear_arith)
                    requires
                        m >= 0,
                        pow2(shift as nat) >= 1,
                ;
            }
            m >> shift
        } else {
            proof {
                let k = (e - 1075) as nat;
                lemma_pow2_pos(k);
                assert(m as int * pow2(k) as int >= m as int) by (nonlinear_arith)
                    requires
                        m >= 0,
                        pow2(k) >= 1,
                ;
            }
            0xffff_ffff_ffff
        };
        if bits >= 0x8000_0000_0000_0000 {
            if w >= 0x8000_0000 {
                -0x8000_0000
            } else {
                -(w as i32)
            }
        } else if w > 0x7fff_ffff {
            0x7fff_ffff
        } else {
            w as i32
        }
    }
}

/// The text is one that a number may print as: digits, letters, points and signs.
pub open spec fn is_written(t: Seq<char>) -> bool {
    forall|i: int| 0 <= i < t.len() ==> is_number_char(#[trigger] t[i])
}

pub open spec fn is_number_char(c: char) -> bool {
    ('0' <= c && c <= '9') || ('a' <= c && c <= 'z') || ('A' <= c && c <= 'Z') || c == '.' || c
        == '-' || c == '+'
}

/// Such a text holds nothing that has a meaning around it.
pub(crate) proof fn lemma_written(t: Seq<char>, bad: char)
    requires
        is_written(t),
        !is_number_char(bad),
    ensures
        !t.contains(bad),
{
}

/// A power of two has that power as its whole part.
pub proof fn law_powers_of_two_are_whole(k: nat, bits: u64)
    requires
        k <= 52,
        bits == (1023 + k) * 0x10_0000_0000_0000,
    ensures
        whole(bits) == pow2(k),
{
    assert(magnitude(bits) == bits);
    assert(magnitude(bits) / 0x10_0000_0000_0000 == 1023 + k);
    assert(magnitude(bits) % 0x10_0000_0000_0000 == 0);
    lemma_pow2_52();
    let shift = (52 - k) as nat;
    lemma_pow2_pos(shift);
    lemma_pow2_adds(k, shift);
    assert(0x10_0000_0000_0000int == pow2(k) * pow2(shift));
    if k < 52 {
        lemma_div_multiples_vanish(pow2(k) as int, pow2(shift) as int);
        assert(pow2(k) * pow2(shift) == pow2(shift) * pow2(k)) by (nonlinear_arith);
    } else {
        lemma2_to64();
        assert(pow2(0) == 1);
    }
}

proof fn lemma_pow2_52()
    ensures
        pow2(52) == 0x10_0000_0000_0000,
        pow2(51) == 0x8_0000_0000_0000,
        pow2(50) == 0x4_0000_0000_0000,
        pow2(46) == 0x4000_0000_0000,
{
    lemma2_to64();
    lemma_pow2_adds(32, 20);
    lemma_pow2_adds(32, 19);
    lemma_pow2_adds(32, 18);
    lemma_pow2_adds(32, 14);
}

/// The patterns of 3, of 4.5, of 90 and of a hundredth have these whole parts.
pub(crate) proof fn law_patterns_of_thresholds()
    ensures
        truncated(0x4008_0000_0000_0000) == 3,
        truncated(0x4012_0000_0000_0000) == 4,
        truncated(0x4056_8000_0000_0000) == 90,
        truncated(0x3f84_7ae1_47ae_147b) == 0,
{
    lemma_pow2_52();
    assert(magnitude(0x4008_0000_0000_0000) / 0x10_0000_0000_0000 == 1024);
    assert(magnitude(0x4012_0000_0000_0000) / 0x10_0000_0000_0000 == 1025);
    assert(magnitude(0x4056_8000_0000_0000) / 0x10_0000_0000_0000 == 1029);
    assert(magnitude(0x3f84_7ae1_47ae_147b) / 0x10_0000_0000_0000 == 1016);
    assert(0x18_0000_0000_0000int / 0x8_0000_0000_0000 == 3);
    assert(0x12_0000_0000_0000int / 0x4_0000_0000_0000 == 4);
    assert(0x16_8000_0000_0000int / 0x4000_0000_0000 == 90);
    assert(whole(0x4008_0000_0000_0000) == 3);
    assert(whole(0x4012_0000_0000_0000) == 4);
    assert(whole(0x4056_8000_0000_0000) == 90);
}

/// A number and its opposite have opposite whole parts, as far as both are kept.
pub proof fn law_opposites_round_to_opposites(a: u64, b: u64)
    requires
        !is_nan(a),
        b == a + 0x8000_0000_0000_0000,
        whole(a) <= 0x7fff_ffff,
    ensures
        truncated(b) == -truncated(a),
{
    assert(magnitude(b) == magnitude(a));
}

/// The integer part is the largest integer that is not above the absolute value: a significand of
/// so many fractional bits lies between it and the next.
pub proof fn law_integer_part_is_rounded_down(bits: u64)
    ensures
        ({
            let e = magnitude(bits) / 0x10_0000_0000_0000;
            let m = 0x10_0000_0000_0000 + magnitude(bits) % 0x10_0000_0000_0000;
            &&& 1023 <= e < 1075 ==> whole(bits) * pow2((1075 - e) as nat) <= m < (whole(bits) + 1)
                * pow2((1075 - e) as nat)
            &&& e >= 1075 ==> whole(bits) == m * pow2((e - 1075) as nat)
            &&& e < 1023 ==> whole(bits) == 0
        }),
{
    let e = magnitude(bits) / 0x10_0000_0000_0000;
    let m = 0x10_0000_0000_0000 + magnitude(bits) % 0x10_0000_0000_0000;
    if 1023 <= e < 1075 {
        let d = pow2((1075 - e) as nat) as int;
        lemma_pow2_pos((1075 - e) as nat);
        let q = m / d;
        lemma_fundamental_div_mod(m, d);
        assert(d * q == q * d && (q + 1) * d == q * d + d) by (nonlinear_arith);
        assert(0 <= m % d < d);
    }
}

/// A number is cut to its integer part with its sign, and kept within thirty-two bits.
pub proof fn law_numbers_are_cut_toward_zero(bits: u64)
    ensures
        whole(bits) >= 0,
        -0x8000_0000 <= truncated(bits) <= 0x7fff_ffff,
        is_nan(bits) ==> truncated(bits) == 0,
        !is_nan(bits) && whole(bits) <= 0x7fff_ffff ==> truncated(bits) == if negative(bits) {
            -whole(bits)
        } else {
            whole(bits)
        },
        !is_nan(bits) && whole(bits) > 0x7fff_ffff ==> truncated(bits) == if negative(bits) {
            -0x8000_0000
        } else {
            0x7fff_ffff
        },
{
    let e = magnitude(bits) / 0x10_0000_0000_0000;
    let m = 0x10_0000_0000_0000 + magnitude(bits) % 0x10_0000_0000_0000;
    if 1023 <= e < 1075 {
        lemma_pow2_pos((1075 - e) as nat);
        lemma_div_pos_is_pos(m, pow2((1075 - e) as nat) as int);
    } else if e >= 1075 {
        let p = pow2((e - 1075) as nat);
        assert(m * p >= 0) by (nonlinear_arith)
            requires
                m >= 0,
                p >= 0,
        ;
    }
}

/// A number below zero is less than any that is not; of two numbers with one sign the larger pattern
/// is further from zero; and the two zeros are equal.
pub proof fn law_sign_and_size_decide(a: u64, b: u64)
    requires
        !is_nan(a),
        !is_nan(b),
    ensures
        negative(a) && !negative(b) && magnitude(a) > 0 ==> less(a, b),
        !negative(a) && !negative(b) ==> (less(a, b) <==> a < b),
        negative(a) && negative(b) ==> (less(a, b) <==> a > b),
        magnitude(a) == 0 && magnitude(b) == 0 ==> equal(a, b),
        at_most(a, a) && equal(a, a),
        less(a, b) ==> at_most(a, b) && !at_most(b, a),
        positive(a) <==> !negative(a) && a != 0,
{
}

/// What is no number compares with nothing.
pub proof fn law_no_number_compares_with_nothing(a: u64, b: u64)
    requires
        is_nan(a),
    ensures
        !less(a, b) && !less(b, a) && !equal(a, b) && !equal(b, a) && !at_most(a, b) && !at_most(
            b,
            a,
        ) && !positive(a),
{
}

} // verus!
