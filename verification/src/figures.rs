//! What the constants of the library amount to.
use crate::amounts::{amount, extent, lemma_cancel, lemma_extent, off, scale};
use crate::casting::TAC_DECAY;
use crate::jump::{MINUS_HUNDREDTH, TENTH};
use crate::motion::{HUNDREDTH, THOUSANDTH};
use crate::number_laws::{minus, size};
use crate::rounding::{doublings, significand, units, BINADE, PRECISION};
use crate::scalar::{group_bits, num, Scalar, HALF};
use vstd::arithmetic::power2::{lemma2_to64, lemma_pow2_adds, lemma_pow2_pos, pow2};
use vstd::prelude::*;

verus! {

/// What a number amounts to whose exponent bits are `e` and whose other bits are `f`.
#[verifier::spinoff_prover]
proof fn lemma_figure(a: Scalar, e: nat, f: nat)
    requires
        size(a) == e * BINADE as nat + f,
        f < BINADE,
        2 <= e < 150,
    ensures
        extent(a) * pow2((150 - e) as nat) as real == (BINADE + f) as real,
{
    let m = size(a);
    assert(m >= PRECISION && m / BINADE as nat == e && m % BINADE as nat == f) by (nonlinear_arith)
        requires
            m == e * 0x80_0000 + f,
            f < 0x80_0000,
            e >= 2,
            PRECISION == 0x100_0000,
            BINADE == 0x80_0000,
    ;
    let left: nat = (e - 1) as nat;
    let right: nat = (150 - e) as nat;
    assert(doublings(m) == left && significand(m) == BINADE + f);
    lemma_pow2_adds(left, right);
    lemma_pow2_pos(left);
    lemma_extent(a);
    let x = extent(a);
    let s = (BINADE + f) as real;
    let p = pow2(left) as real;
    let q = pow2(right) as real;
    assert(units(m) as real == s * p) by (nonlinear_arith)
        requires
            units(m) == (BINADE + f) * pow2(left),
            s == (BINADE + f) as real,
            p == pow2(left) as real,
    ;
    assert(scale() == p * q) by (nonlinear_arith)
        requires
            scale() == pow2(149) as real,
            pow2(149) == pow2(left) * pow2(right),
            p == pow2(left) as real,
            q == pow2(right) as real,
    ;
    let xq = x * q;
    assert(xq * p == x * (p * q)) by (nonlinear_arith)
        requires
            xq == x * q,
    ;
    lemma_cancel(xq, s, p);
    lemma_cancel(s, xq, p);
}

/// The constants of the library are the numbers that they are named after, but for rounding: what
/// counts as no movement, as slow, as an overhang and as no wish, how fast the readiness for a tic
/// tac decays, and one half.
#[verifier::spinoff_prover]
pub proof fn law_constants()
    ensures
        off(amount(num(HUNDREDTH)), 1 as real / 100 as real, 1 as real / 0x1000_0000 as real),
        off(
            amount(num(MINUS_HUNDREDTH)),
            0 as real - 1 as real / 100 as real,
            1 as real / 0x1000_0000 as real,
        ),
        off(amount(num(TENTH)), 1 as real / 10 as real, 1 as real / 0x1000_0000 as real),
        off(amount(num(THOUSANDTH)), 1 as real / 1000 as real, 1 as real / 0x1000_0000 as real),
        off(amount(num(TAC_DECAY)), 99 as real / 100 as real, 1 as real / 0x100_0000 as real),
        amount(num(HALF)) == 1 as real / 2 as real,
        num(HUNDREDTH).is_finite() && num(TENTH).is_finite() && num(THOUSANDTH).is_finite(),
        num(MINUS_HUNDREDTH).is_finite() && num(TAC_DECAY).is_finite() && num(HALF).is_finite(),
{
    broadcast use group_bits;

    reveal(Scalar::spec_is_finite);
    lemma2_to64();
    lemma_pow2_adds(32, 1);
    lemma_figure(num(HUNDREDTH), 120, 0x23_d70a);
    lemma_figure(num(TENTH), 123, 0x4c_cccd);
    lemma_figure(num(THOUSANDTH), 117, 0x03_126f);
    lemma_figure(num(TAC_DECAY), 126, 0x7d_70a4);
    lemma_figure(num(HALF), 126, 0);
    assert(size(num(MINUS_HUNDREDTH)) == size(num(HUNDREDTH)) && minus(num(MINUS_HUNDREDTH)));
    assert(extent(num(HUNDREDTH)) * 0x4000_0000 as real == 0xa3_d70a as real);
    assert(extent(num(TENTH)) * 0x800_0000 as real == 0xcc_cccd as real);
    assert(extent(num(THOUSANDTH)) * 0x2_0000_0000 as real == 0x83_126f as real);
    assert(extent(num(TAC_DECAY)) * 0x100_0000 as real == 0xfd_70a4 as real);
    assert(extent(num(HALF)) * 0x100_0000 as real == 0x80_0000 as real);
}

} // verus!
