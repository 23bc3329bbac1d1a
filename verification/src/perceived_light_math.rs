//! Perceptual brightness curve: eyes perceive lightness non-linearly, so a
//! linear 0..=100 brightness scale is mapped onto hardware duty cycles by
//! the CIE lightness curve, approximated with integer arithmetic.

use vstd::prelude::*;

verus! {

/// Duty cycle for perceived brightness `i` (0..=100) on a channel whose
/// hardware duty range is `min..=max`: linear near black, else a cubic.
pub open spec fn perceived_duty(min: int, max: int, i: int) -> int {
    let span = max - min;
    if i < 8 {
        span * i / 903 + min
    } else {
        span * (i + 16) / 116 * (i + 16) / 116 * (i + 16) / 116 + min
    }
}

/// One duty-curve step never exceeds the span it scales.
proof fn lemma_scale_step_bounded(span: int, k: int)
    requires
        0 <= span,
        0 <= k <= 116,
    ensures
        0 <= span * k / 116 <= span,
{
    vstd::arithmetic::mul::lemma_mul_inequality(k, 116, span);
    vstd::arithmetic::mul::lemma_mul_is_commutative(k, span);
    vstd::arithmetic::mul::lemma_mul_is_commutative(116, span);
    vstd::arithmetic::div_mod::lemma_div_is_ordered(span * k, span * 116, 116);
    vstd::arithmetic::div_mod::lemma_div_multiples_vanish(span, 116);
    vstd::arithmetic::mul::lemma_mul_nonnegative(span, k);
    vstd::arithmetic::div_mod::lemma_div_pos_is_pos(span * k, 116);
}

/// Every point of the curve stays within the channel's duty range.
pub proof fn lemma_perceived_duty_bounded(min: int, max: int, i: int)
    requires
        0 <= min <= max,
        0 <= i <= 100,
    ensures
        min <= perceived_duty(min, max, i) <= max,
{
    let span = max - min;
    if i < 8 {
        vstd::arithmetic::mul::lemma_mul_inequality(i, 903, span);
        vstd::arithmetic::mul::lemma_mul_is_commutative(i, span);
        vstd::arithmetic::mul::lemma_mul_is_commutative(903, span);
        vstd::arithmetic::div_mod::lemma_div_is_ordered(span * i, span * 903, 903);
        vstd::arithmetic::div_mod::lemma_div_multiples_vanish(span, 903);
        vstd::arithmetic::mul::lemma_mul_nonnegative(span, i);
        vstd::arithmetic::div_mod::lemma_div_pos_is_pos(span * i, 903);
    } else {
        lemma_scale_step_bounded(span, i + 16);
        lemma_scale_step_bounded(span * (i + 16) / 116, i + 16);
        lemma_scale_step_bounded(span * (i + 16) / 116 * (i + 16) / 116, i + 16);
    }
}

/// Fills `duties` with the duty cycle for each perceived brightness level
/// from 0 to 100, scaled into `min..=max`.
pub fn fill_pwm_duty_cycle_values(duties: &mut Vec<u16>, min: u16, max: u16)
    requires
        old(duties)@.len() == 101,
        min <= max,
    ensures
        final(duties)@.len() == 101,
        forall|i: int|
            0 <= i < 101 ==> final(duties)@[i] == perceived_duty(min as int, max as int, i),
{
    let mut i: usize = 0;
    while i <= 100
        invariant
            duties@.len() == 101,
            i <= 101,
            min <= max,
            forall|j: int| 0 <= j < i ==> duties@[j] == perceived_duty(min as int, max as int, j),
        decreases 101 - i,
    {
        let span: u32 = (max - min) as u32;
        proof {
            lemma_perceived_duty_bounded(min as int, max as int, i as int);
            if i >= 8 {
                lemma_scale_step_bounded(span as int, i + 16);
                lemma_scale_step_bounded(span as int * (i + 16) / 116, i + 16);
            }
        }
        let duty: u32 = if i < 8 {
            span * (i as u32) / 903
        } else {
            span * (i as u32 + 16) / 116 * (i as u32 + 16) / 116 * (i as u32 + 16) / 116
        };
        duties.set(i, (duty as u16) + min);
        i += 1;
    }
}

} // verus!
