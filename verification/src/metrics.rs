//! Speed metrics: words-per-minute and the rendering-relative intensity.
//!
//! The standard convention of one word = five characters gives
//! `wpm = round(60 * chars / 5 / (elapsed_ms / 1000))`, which simplifies to
//! `round(chars * 12000 / elapsed_ms)`. Rounding is to the nearest integer,
//! ties away from zero. A segment whose elapsed time was never measured
//! (or is not positive) is left unmeasured instead of dividing by zero.

use vstd::prelude::*;

use crate::replay::clamp_i64;
use crate::segment::SegView;
use crate::segment::Segment;

verus! {

/// `x` forced into the `i32` range.
pub open spec fn clamp_i32(x: int) -> int {
    if x > i32::MAX as int {
        i32::MAX as int
    } else if x < i32::MIN as int {
        i32::MIN as int
    } else {
        x
    }
}

/// `x` forced into the `u64` range.
pub open spec fn clamp_u64(x: int) -> int {
    if x > u64::MAX as int {
        u64::MAX as int
    } else if x < 0 {
        0
    } else {
        x
    }
}

/// Nearest-integer rounding of `a / b` for `a >= 0`, `b >= 1`, ties rounding
/// up (away from zero).
pub open spec fn round_div(a: int, b: int) -> int {
    a / b + if 2 * (a % b) >= b {
        1int
    } else {
        0int
    }
}

/// The words-per-minute figure of `text_len` characters typed in `time`
/// milliseconds, forced into `i64`.
pub open spec fn segment_wpm_spec(text_len: int, time: int) -> int {
    clamp_i64(round_div(text_len * 12000, time))
}

/// The rendering-relative intensity of a words-per-minute figure, scaled by
/// `line_height / line_wpm` and forced into `u64`.
pub open spec fn segment_rel_spec(wpm: int, line_height: int, line_wpm: int) -> int {
    clamp_u64(round_div(line_height * wpm, line_wpm))
}

/// A segment with its derived metrics filled in; one without a positive
/// measured time is left exactly as it was (its time was never measured, so
/// no rate can be derived from it).
pub open spec fn measure_segment(sv: SegView, line_height: int, line_wpm: int) -> SegView {
    if sv.time > 0 {
        let w = segment_wpm_spec(sv.text.len() as int, sv.time);
        SegView {
            text: sv.text,
            nomistakes: sv.nomistakes,
            time: sv.time,
            wpm: w,
            rel: segment_rel_spec(w, line_height, line_wpm),
        }
    } else {
        sv
    }
}

/// Nearest-integer division, ties rounding up.
fn round_div_u128(a: u128, b: u128) -> (r: u128)
    requires
        1 <= b,
        b <= u128::MAX / 2,
        a < u128::MAX,
    ensures
        r as int == round_div(a as int, b as int),
{
    let q = a / b;
    let rem = a % b;
    if 2 * rem >= b {
        proof {
            vstd::arithmetic::div_mod::lemma_fundamental_div_mod(a as int, b as int);
            assert(q as int * b as int >= q as int) by (nonlinear_arith)
                requires
                    q as int >= 0,
                    b as int >= 1,
            ;
        }
        q + 1
    } else {
        q
    }
}

/// Whole-session words-per-minute: `chars` characters in `millis`
/// milliseconds, rounded to the nearest integer and forced into `i32`.
pub fn calculate_wpm(chars: i32, millis: i64) -> (r: i32)
    requires
        0 <= chars,
        0 < millis,
    ensures
        r as int == clamp_i32(round_div(chars as int * 12000, millis as int)),
{
    let a: u128 = chars as u128 * 12000;
    let b: u128 = millis as u128;
    let q = round_div_u128(a, b);
    if q > i32::MAX as u128 {
        i32::MAX
    } else {
        q as i32
    }
}

/// Fills in `wpm` and `rel` for every segment with a measured positive
/// elapsed time; segments without one stay untouched.
pub fn apply_metrics(segments: &mut Vec<Segment>, line_height: u64, line_wpm: u64)
    requires
        line_wpm >= 1,
    ensures
        final(segments)@.len() == old(segments)@.len(),
        forall|k: int|
            #![trigger final(segments)@[k]]
            0 <= k < old(segments)@.len() ==> final(segments)@[k]@ == measure_segment(
                old(segments)@[k]@,
                line_height as int,
                line_wpm as int,
            ),
{
    let mut k: usize = 0;
    while k < segments.len()
        invariant
            k <= segments.len(),
            segments@.len() == old(segments)@.len(),
            line_wpm >= 1,
            forall|j: int|
                #![trigger segments@[j]]
                0 <= j < k ==> segments@[j]@ == measure_segment(
                    old(segments)@[j]@,
                    line_height as int,
                    line_wpm as int,
                ),
            forall|j: int| #![trigger segments@[j]] k <= j < segments@.len() ==> segments@[j]
                == old(segments)@[j],
        decreases segments.len() - k,
    {
        let time = segments[k].time;
        if time > 0 {
            let tl: usize = segments[k].text.len();
            let a: u128 = tl as u128 * 12000;
            let b: u128 = time as u128;
            let q = round_div_u128(a, b);
            let w: i64 = if q > i64::MAX as u128 {
                i64::MAX
            } else {
                q as i64
            };
            proof {
                assert((line_height as u128) as int * (w as u128) as int <= 0xffff_ffff_ffff_ffff
                    * 0x7fff_ffff_ffff_ffff) by (nonlinear_arith)
                    requires
                        0 <= (line_height as u128) as int <= 0xffff_ffff_ffff_ffff,
                        0 <= (w as u128) as int <= 0x7fff_ffff_ffff_ffff,
                ;
            }
            let a2: u128 = (line_height as u128) * (w as u128);
            let b2: u128 = line_wpm as u128;
            let q2 = round_div_u128(a2, b2);
            let rel: u64 = if q2 > u64::MAX as u128 {
                u64::MAX
            } else {
                q2 as u64
            };
            let txt = crate::events::copy_bytes(&segments[k].text);
            let nm = segments[k].nomistakes;
            let updated = Segment { text: txt, nomistakes: nm, time, wpm: w, rel };
            segments.set(k, updated);
        }
        k = k + 1;
    }
}

} // verus!
