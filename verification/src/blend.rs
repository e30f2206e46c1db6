//! Blending a colour toward its palette match: the interpolation all blends
//! share, the chroma mix weight, edge retention and the final channel store.
//!
//! Lightness moves toward the target by a small fixed weight, so that the
//! structure of the image survives. Chroma moves by the strength times a
//! sigmoid of its distance from the target, `strength / (1 + exp(-4 d))`:
//! the farther a channel is from its target, the more of the strength it
//! gets. Every blend rounds toward the value it starts from and never
//! passes its target.

use vstd::prelude::*;
use crate::color::{lemma_entry_is_own_nearest, nearest, nearest_index, palette, palette_entry, Lab,
    PALETTE_LEN};

verus! {

/// The weight that stands for 1: weights are held in billionths.
pub const WEIGHT_ONE: u32 = 1_000_000_000;

/// The channel level that stands for full scale: levels are held in
/// millionths.
pub const FULL_SCALE: u32 = 1_000_000;

/// Weight of the target in the lightness blend: 2 %, so that lightness is
/// barely altered and the structure of the image survives.
pub const LIGHTNESS_WEIGHT: u32 = 20_000_000;

/// Steepness of the sigmoid: the factor on the chroma gap in its exponent.
pub const SIGMOID_STEEPNESS: u32 = 4;

/// Contrast compensation applied to each stored channel, in percent.
pub const CONTRAST_GAIN: u32 = 108;

/// The value that lies the fraction `num / den` of the way from `from` to
/// `to`. The step is rounded down, so the result never passes `to`.
pub open spec fn lerp(from: int, to: int, num: int, den: int) -> int {
    if to >= from {
        from + ((to - from) * num) / den
    } else {
        from - ((from - to) * num) / den
    }
}

/// Distance of two values.
pub open spec fn gap(p: int, q: int) -> int {
    if p >= q {
        p - q
    } else {
        q - p
    }
}

/// `strength` held to the range from 0 to `WEIGHT_ONE`.
pub open spec fn clamped_strength(strength: int) -> int {
    if strength < 0 {
        0
    } else if strength > WEIGHT_ONE {
        WEIGHT_ONE as int
    } else {
        strength
    }
}

/// The chroma mix weight: the clamped strength scaled by the sigmoid weight
/// of the channel, itself held to at most `WEIGHT_ONE`.
pub open spec fn mix_weight(strength: int, sigmoid: int) -> int {
    let w = if sigmoid > WEIGHT_ONE { WEIGHT_ONE as int } else { sigmoid };
    (clamped_strength(strength) * w) / (WEIGHT_ONE as int)
}

/// The exponent of the sigmoid for a chroma gap, both in millionths:
/// `SIGMOID_STEEPNESS` times the gap, held at the largest value that the
/// argument can carry. The sigmoid is evaluated at its negative.
pub open spec fn sigmoid_argument(chroma_gap: int) -> int {
    if chroma_gap * SIGMOID_STEEPNESS > u32::MAX {
        u32::MAX as int
    } else {
        chroma_gap * SIGMOID_STEEPNESS
    }
}

/// The sigmoid weight `1 / (1 + e)` in billionths, where `decay` is `e`, the
/// exponential of the negated sigmoid argument, in billionths and held to
/// at most 1. It runs from one half, where the colour sits on its target, up
/// to 1, where it is far from it.
pub open spec fn sigmoid_weight(decay: int) -> int {
    let e = if decay > WEIGHT_ONE { WEIGHT_ONE as int } else { decay };
    (WEIGHT_ONE * WEIGHT_ONE) / (WEIGHT_ONE + e)
}

/// A step of `num / den` of a gap is at most the gap, and grows with `num`.
pub proof fn lemma_step_bounds(g: int, num: int, den: int)
    requires
        0 <= g,
        0 <= num <= den,
        0 < den,
    ensures
        0 <= (g * num) / den <= g,
        num == 0 ==> (g * num) / den == 0,
        num == den ==> (g * num) / den == g,
{
    assert(0 <= (g * num) / den <= g && (num == 0 ==> (g * num) / den == 0) && (num == den ==> (g
        * num) / den == g)) by (nonlinear_arith)
        requires
            0 <= g,
            0 <= num <= den,
            0 < den,
    ;
}

/// A larger numerator gives a step at least as large.
pub proof fn lemma_step_monotonic(g: int, num1: int, num2: int, den: int)
    requires
        0 <= g,
        0 <= num1 <= num2,
        0 < den,
    ensures
        (g * num1) / den <= (g * num2) / den,
{
    assert(g * num1 <= g * num2) by (nonlinear_arith)
        requires
            0 <= g,
            0 <= num1 <= num2,
    ;
    vstd::arithmetic::div_mod::lemma_div_is_ordered(g * num1, g * num2, den);
}

/// The interpolated value lies between its ends, equals `from` at weight 0
/// and `to` at full weight.
pub proof fn lemma_lerp_between(from: int, to: int, num: int, den: int)
    requires
        0 <= num <= den,
        0 < den,
    ensures
        gap(lerp(from, to, num, den), to) <= gap(from, to),
        gap(lerp(from, to, num, den), from) + gap(lerp(from, to, num, den), to) == gap(from, to),
        num == 0 ==> lerp(from, to, num, den) == from,
        num == den ==> lerp(from, to, num, den) == to,
{
    lemma_step_bounds(gap(from, to), num, den);
}

/// A heavier weight leaves the interpolated value at least as close to `to`.
pub proof fn lemma_lerp_monotonic(from: int, to: int, num1: int, num2: int, den: int)
    requires
        0 <= num1 <= num2 <= den,
        0 < den,
    ensures
        gap(lerp(from, to, num2, den), to) <= gap(lerp(from, to, num1, den), to),
{
    lemma_step_bounds(gap(from, to), num1, den);
    lemma_step_bounds(gap(from, to), num2, den);
    lemma_step_monotonic(gap(from, to), num1, num2, den);
}

/// Moves `from` toward `to` by the fraction `num / den` of their gap.
pub fn interpolate(from: i32, to: i32, num: u32, den: u32) -> (r: i32)
    requires
        0 < den,
        num <= den,
    ensures
        r == lerp(from as int, to as int, num as int, den as int),
{
    proof {
        lemma_step_bounds(gap(from as int, to as int), num as int, den as int);
    }
    if to >= from {
        let g: u64 = (to as i64 - from as i64) as u64;
        assert(g * num <= 0xffff_ffff * 0xffff_ffff) by (nonlinear_arith)
            requires
                g <= 0xffff_ffff,
                num <= 0xffff_ffff,
        ;
        let step: u64 = g * (num as u64) / (den as u64);
        (from as i64 + step as i64) as i32
    } else {
        let g: u64 = (from as i64 - to as i64) as u64;
        assert(g * num <= 0xffff_ffff * 0xffff_ffff) by (nonlinear_arith)
            requires
                g <= 0xffff_ffff,
                num <= 0xffff_ffff,
        ;
        let step: u64 = g * (num as u64) / (den as u64);
        (from as i64 - step as i64) as i32
    }
}

/// The exponent at whose negative the sigmoid is evaluated for a chroma
/// gap.
pub fn sigmoid_exponent(chroma_gap: u32) -> (t: u32)
    ensures
        t == sigmoid_argument(chroma_gap as int),
{
    if chroma_gap > u32::MAX / SIGMOID_STEEPNESS {
        u32::MAX
    } else {
        chroma_gap * SIGMOID_STEEPNESS
    }
}

/// The sigmoid weight for `decay`, the exponential of the negated sigmoid
/// argument in billionths: `1 / (1 + decay)`, between one half and 1.
pub fn sigmoid_from_decay(decay: u32) -> (w: u32)
    ensures
        w == sigmoid_weight(decay as int),
        WEIGHT_ONE / 2 <= w <= WEIGHT_ONE,
{
    let e: u64 = if decay > WEIGHT_ONE {
        WEIGHT_ONE as u64
    } else {
        decay as u64
    };
    let one: u64 = WEIGHT_ONE as u64;
    let w: u64 = one * one / (one + e);
    assert(500_000_000 <= w <= 1_000_000_000) by (nonlinear_arith)
        requires
            w == (1_000_000_000int * 1_000_000_000) / (1_000_000_000 + e),
            0 <= e <= 1_000_000_000,
    ;
    w as u32
}

/// The chroma mix weight for a strength and a channel's sigmoid weight, both
/// in billionths. The strength is clamped to the range from 0 to 1 first.
pub fn chroma_mix(strength: i32, sigmoid: u32) -> (m: u32)
    ensures
        m == mix_weight(strength as int, sigmoid as int),
        m <= WEIGHT_ONE,
{
    let s: u64 = if strength < 0 {
        0
    } else if strength > WEIGHT_ONE as i32 {
        WEIGHT_ONE as u64
    } else {
        strength as u64
    };
    let w: u64 = if sigmoid > WEIGHT_ONE {
        WEIGHT_ONE as u64
    } else {
        sigmoid as u64
    };
    proof {
        lemma_step_bounds(s as int, w as int, WEIGHT_ONE as int);
    }
    assert(s * w <= 1_000_000_000 * 1_000_000_000) by (nonlinear_arith)
        requires
            s <= 1_000_000_000,
            w <= 1_000_000_000,
    ;
    (s * w / (WEIGHT_ONE as u64)) as u32
}

/// The palette entry that `original` is matched to.
pub open spec fn target_of(original: Lab) -> Lab {
    palette()[nearest_index(original)]
}

/// The colour that `original` is blended to. Lightness moves toward the
/// target by the fixed `LIGHTNESS_WEIGHT`; each chroma channel moves by its
/// own mix weight.
pub open spec fn harmonized(original: Lab, strength: int, sigmoid_a: int, sigmoid_b: int) -> Lab {
    let target = target_of(original);
    Lab {
        l: lerp(original.l as int, target.l as int, LIGHTNESS_WEIGHT as int, WEIGHT_ONE as int) as i32,
        a: lerp(
            original.a as int,
            target.a as int,
            mix_weight(strength, sigmoid_a),
            WEIGHT_ONE as int,
        ) as i32,
        b: lerp(
            original.b as int,
            target.b as int,
            mix_weight(strength, sigmoid_b),
            WEIGHT_ONE as int,
        ) as i32,
    }
}

/// `harmonized` with its lightness drawn back toward the original where the
/// edge mask is weak: at mask value 0 the original lightness is kept, at 255
/// the harmonized lightness stands.
pub open spec fn edge_retained(original: Lab, blended: Lab, edge: int) -> Lab {
    Lab { l: lerp(original.l as int, blended.l as int, edge, 255) as i32, a: blended.a, b: blended.b }
}

/// The whole blend of one colour: harmonized, then edge retention where a
/// mask value is given.
pub open spec fn blended(
    original: Lab,
    strength: int,
    sigmoid_a: int,
    sigmoid_b: int,
    edge: Option<u8>,
) -> Lab {
    let h = harmonized(original, strength, sigmoid_a, sigmoid_b);
    match edge {
        Some(e) => edge_retained(original, h, e as int),
        None => h,
    }
}

/// The mix weight lies between 0 and `WEIGHT_ONE`, is 0 at strength 0 or
/// below, and grows with the strength.
pub proof fn lemma_mix_weight(strength1: int, strength2: int, sigmoid: int)
    requires
        strength1 <= strength2,
        0 <= sigmoid,
    ensures
        0 <= mix_weight(strength1, sigmoid) <= mix_weight(strength2, sigmoid) <= WEIGHT_ONE,
        strength1 <= 0 ==> mix_weight(strength1, sigmoid) == 0,
{
    let w = if sigmoid > WEIGHT_ONE { WEIGHT_ONE as int } else { sigmoid };
    let c1 = clamped_strength(strength1);
    let c2 = clamped_strength(strength2);
    lemma_step_bounds(c1, w, WEIGHT_ONE as int);
    lemma_step_bounds(c2, w, WEIGHT_ONE as int);
    assert(c1 * w <= c2 * w) by (nonlinear_arith)
        requires
            0 <= c1 <= c2,
            0 <= w,
    ;
    vstd::arithmetic::div_mod::lemma_div_is_ordered(c1 * w, c2 * w, WEIGHT_ONE as int);
}

/// Identity at zero strength: a strength of 0 or below leaves both chroma
/// channels exactly as they were, whatever the sigmoid weights. Lightness is
/// the fixed-weight blend and is the same at every strength.
pub proof fn lemma_zero_strength_keeps_chroma(
    original: Lab,
    strength: int,
    other_strength: int,
    sigmoid_a: int,
    sigmoid_b: int,
    edge: Option<u8>,
)
    requires
        strength <= 0,
        0 <= sigmoid_a,
        0 <= sigmoid_b,
    ensures
        harmonized(original, strength, sigmoid_a, sigmoid_b).a == original.a,
        harmonized(original, strength, sigmoid_a, sigmoid_b).b == original.b,
        blended(original, strength, sigmoid_a, sigmoid_b, edge).a == original.a,
        blended(original, strength, sigmoid_a, sigmoid_b, edge).b == original.b,
        harmonized(original, strength, sigmoid_a, sigmoid_b).l == harmonized(
            original,
            other_strength,
            sigmoid_a,
            sigmoid_b,
        ).l,
        harmonized(original, strength, sigmoid_a, sigmoid_b).l == lerp(
            original.l as int,
            target_of(original).l as int,
            LIGHTNESS_WEIGHT as int,
            WEIGHT_ONE as int,
        ),
{
    let target = target_of(original);
    lemma_mix_weight(strength, strength, sigmoid_a);
    lemma_mix_weight(strength, strength, sigmoid_b);
    lemma_lerp_between(
        original.l as int,
        target.l as int,
        LIGHTNESS_WEIGHT as int,
        WEIGHT_ONE as int,
    );
}

/// Monotonic pull: for one colour and one pair of sigmoid weights, a larger
/// strength leaves each chroma channel at least as close to the matched
/// target's, and the blend never passes the target.
pub proof fn lemma_stronger_pull_is_closer(
    original: Lab,
    strength1: int,
    strength2: int,
    sigmoid_a: int,
    sigmoid_b: int,
)
    requires
        strength1 <= strength2,
        0 <= sigmoid_a,
        0 <= sigmoid_b,
    ensures
        gap(
            harmonized(original, strength2, sigmoid_a, sigmoid_b).a as int,
            target_of(original).a as int,
        ) <= gap(
            harmonized(original, strength1, sigmoid_a, sigmoid_b).a as int,
            target_of(original).a as int,
        ) <= gap(original.a as int, target_of(original).a as int),
        gap(
            harmonized(original, strength2, sigmoid_a, sigmoid_b).b as int,
            target_of(original).b as int,
        ) <= gap(
            harmonized(original, strength1, sigmoid_a, sigmoid_b).b as int,
            target_of(original).b as int,
        ) <= gap(original.b as int, target_of(original).b as int),
{
    let target = target_of(original);
    lemma_mix_weight(strength1, strength2, sigmoid_a);
    lemma_mix_weight(strength1, strength2, sigmoid_b);
    let a1 = mix_weight(strength1, sigmoid_a);
    let a2 = mix_weight(strength2, sigmoid_a);
    let b1 = mix_weight(strength1, sigmoid_b);
    let b2 = mix_weight(strength2, sigmoid_b);
    let one = WEIGHT_ONE as int;
    lemma_lerp_between(original.a as int, target.a as int, a1, one);
    lemma_lerp_between(original.a as int, target.a as int, a2, one);
    lemma_lerp_monotonic(original.a as int, target.a as int, a1, a2, one);
    lemma_lerp_between(original.b as int, target.b as int, b1, one);
    lemma_lerp_between(original.b as int, target.b as int, b2, one);
    lemma_lerp_monotonic(original.b as int, target.b as int, b1, b2, one);
}

/// A colour of the palette is left as it is: it is its own target, so the
/// blend has nowhere to move it, at any strength and with or without a mask.
pub proof fn lemma_palette_entry_is_fixed(
    i: int,
    strength: int,
    sigmoid_a: int,
    sigmoid_b: int,
    edge: Option<u8>,
)
    requires
        0 <= i < PALETTE_LEN,
    ensures
        target_of(palette()[i]) == palette()[i],
        blended(palette()[i], strength, sigmoid_a, sigmoid_b, edge) == palette()[i],
{
    lemma_entry_is_own_nearest(i);
}

/// Edge mask attenuation: a mask value of 0 keeps the original lightness, a
/// mask value of 255 gives exactly the blend without a mask, and in between
/// the lightness lies between the two. Chroma never depends on the mask.
pub proof fn lemma_edge_mask_extremes(
    original: Lab,
    strength: int,
    sigmoid_a: int,
    sigmoid_b: int,
    edge: u8,
)
    ensures
        blended(original, strength, sigmoid_a, sigmoid_b, Some(0u8)).l == original.l,
        blended(original, strength, sigmoid_a, sigmoid_b, Some(255u8)) == blended(
            original,
            strength,
            sigmoid_a,
            sigmoid_b,
            None,
        ),
        blended(original, strength, sigmoid_a, sigmoid_b, Some(edge)).a == blended(
            original,
            strength,
            sigmoid_a,
            sigmoid_b,
            None,
        ).a,
        blended(original, strength, sigmoid_a, sigmoid_b, Some(edge)).b == blended(
            original,
            strength,
            sigmoid_a,
            sigmoid_b,
            None,
        ).b,
        gap(
            blended(original, strength, sigmoid_a, sigmoid_b, Some(edge)).l as int,
            original.l as int,
        ) <= gap(
            blended(original, strength, sigmoid_a, sigmoid_b, None).l as int,
            original.l as int,
        ),
{
    let h = harmonized(original, strength, sigmoid_a, sigmoid_b);
    lemma_lerp_between(original.l as int, h.l as int, 0, 255);
    lemma_lerp_between(original.l as int, h.l as int, 255, 255);
    lemma_lerp_between(original.l as int, h.l as int, edge as int, 255);
}

/// Distance of the `a` channel of `original` from that of its palette
/// match, in millionths.
pub open spec fn chroma_gap_a(original: Lab) -> u32 {
    gap(original.a as int, target_of(original).a as int) as u32
}

/// Distance of the `b` channel of `original` from that of its palette
/// match, in millionths.
pub open spec fn chroma_gap_b(original: Lab) -> u32 {
    gap(original.b as int, target_of(original).b as int) as u32
}

/// Distance of each chroma channel of `original` from its palette match, in
/// millionths. Four times each is an argument of the sigmoid.
pub fn chroma_gaps(original: &Lab) -> (g: (u32, u32))
    ensures
        g.0 == chroma_gap_a(*original),
        g.1 == chroma_gap_b(*original),
        g.0 == gap(original.a as int, target_of(*original).a as int),
        g.1 == gap(original.b as int, target_of(*original).b as int),
{
    let target = palette_entry(nearest(original));
    let ga: i64 = if original.a >= target.a {
        original.a as i64 - target.a as i64
    } else {
        target.a as i64 - original.a as i64
    };
    let gb: i64 = if original.b >= target.b {
        original.b as i64 - target.b as i64
    } else {
        target.b as i64 - original.b as i64
    };
    (ga as u32, gb as u32)
}

/// Blends `original` toward its nearest palette entry. `strength` and the
/// two sigmoid weights are in billionths; `strength` is clamped to the range
/// from 0 to 1 and each sigmoid weight to at most 1 before use.
pub fn harmonize_color(original: Lab, strength: i32, sigmoid_a: u32, sigmoid_b: u32) -> (r: Lab)
    ensures
        r == harmonized(original, strength as int, sigmoid_a as int, sigmoid_b as int),
        r.l == lerp(
            original.l as int,
            target_of(original).l as int,
            LIGHTNESS_WEIGHT as int,
            WEIGHT_ONE as int,
        ),
        r.a == lerp(
            original.a as int,
            target_of(original).a as int,
            mix_weight(strength as int, sigmoid_a as int),
            WEIGHT_ONE as int,
        ),
        r.b == lerp(
            original.b as int,
            target_of(original).b as int,
            mix_weight(strength as int, sigmoid_b as int),
            WEIGHT_ONE as int,
        ),
{
    let target = palette_entry(nearest(&original));
    Lab {
        l: interpolate(original.l, target.l, LIGHTNESS_WEIGHT, WEIGHT_ONE),
        a: interpolate(original.a, target.a, chroma_mix(strength, sigmoid_a), WEIGHT_ONE),
        b: interpolate(original.b, target.b, chroma_mix(strength, sigmoid_b), WEIGHT_ONE),
    }
}

/// Recombines the harmonized lightness with the original one, weighted by
/// the edge mask value: `edge / 255` of the way from the original to the
/// harmonized lightness. Chroma is left as harmonized.
pub fn retain_edges(original: &Lab, blended: Lab, edge: u8) -> (r: Lab)
    ensures
        r == edge_retained(*original, blended, edge as int),
        r.l == lerp(original.l as int, blended.l as int, edge as int, 255),
        r.a == blended.a,
        r.b == blended.b,
{
    Lab { l: interpolate(original.l, blended.l, edge as u32, 255), a: blended.a, b: blended.b }
}

/// Blends one colour: `harmonize_color`, then `retain_edges` where the pixel
/// has a mask value.
pub fn blend_color(
    original: Lab,
    strength: i32,
    sigmoid_a: u32,
    sigmoid_b: u32,
    edge: Option<u8>,
) -> (r: Lab)
    ensures
        r == blended(original, strength as int, sigmoid_a as int, sigmoid_b as int, edge),
{
    let h = harmonize_color(original, strength, sigmoid_a, sigmoid_b);
    match edge {
        Some(e) => retain_edges(&original, h, e),
        None => h,
    }
}

/// The stored value of a channel level `c`, given in millionths of full
/// scale: the level times `gain` percent, held to the range from 0 to 1 and
/// scaled to 0..=255, rounded down once.
pub open spec fn stored_channel(c: int, gain: int) -> int {
    if c <= 0 {
        0
    } else if c * gain >= 100 * FULL_SCALE {
        255
    } else {
        (c * gain * 255) / (100 * FULL_SCALE)
    }
}

/// Clamping: whatever the level and the gain, the stored value is a byte.
/// A level at or below 0 is stored as 0 and a boosted level at or above full
/// scale as 255; in between the stored value grows with the level.
pub proof fn lemma_stored_channel_is_clamped(c: int, d: int, gain: int)
    requires
        c <= d,
        0 <= gain,
    ensures
        0 <= stored_channel(c, gain) <= stored_channel(d, gain) <= 255,
        c <= 0 ==> stored_channel(c, gain) == 0,
        d * gain >= 100 * FULL_SCALE ==> stored_channel(d, gain) == 255,
{
    let full = 100 * FULL_SCALE;
    if d > 0 {
        let pd = d * gain;
        assert(0 <= pd) by (nonlinear_arith)
            requires
                pd == d * gain,
                d > 0,
                gain >= 0,
        ;
        if pd < full {
            assert(0 <= (pd * 255) / full <= 255) by (nonlinear_arith)
                requires
                    0 <= pd < full,
                    full == 100_000_000,
            ;
        }
        if c > 0 {
            let pc = c * gain;
            assert(0 <= pc <= pd) by (nonlinear_arith)
                requires
                    pc == c * gain,
                    pd == d * gain,
                    0 < c <= d,
                    gain >= 0,
            ;
            if pc < full {
                assert(0 <= (pc * 255) / full <= 255) by (nonlinear_arith)
                    requires
                        0 <= pc < full,
                        full == 100_000_000,
                ;
            }
            if pd < full {
                assert((pc * 255) / full <= (pd * 255) / full) by (nonlinear_arith)
                    requires
                        0 <= pc <= pd,
                        full == 100_000_000,
                ;
            }
        }
    } else {
        assert(d * gain <= 0) by (nonlinear_arith)
            requires
                d <= 0,
                gain >= 0,
        ;
    }
}

/// Applies `gain` percent to a channel level in millionths of full scale,
/// clamps and stores it as a byte. A level at or below 0 gives 0, a boosted
/// level at or above full scale gives 255: nothing wraps.
pub fn store_channel(c: i32, gain: u32) -> (v: u8)
    ensures
        v == stored_channel(c as int, gain as int),
        c <= 0 ==> v == 0,
        c * gain >= 100 * FULL_SCALE ==> v == 255,
{
    if c <= 0 {
        assert(c * gain <= 0) by (nonlinear_arith)
            requires
                c <= 0,
                gain >= 0,
        ;
        return 0;
    }
    assert(c * gain <= 0x7fff_ffff * 0xffff_ffff) by (nonlinear_arith)
        requires
            0 < c <= 0x7fff_ffff,
            gain <= 0xffff_ffff,
    ;
    let boosted: u64 = (c as u64) * (gain as u64);
    let full: u64 = 100 * (FULL_SCALE as u64);
    if boosted >= full {
        255
    } else {
        assert(0 <= (boosted * 255) / (full as int) <= 255) by (nonlinear_arith)
            requires
                0 <= boosted < full,
                full == 100_000_000,
        ;
        (boosted * 255 / full) as u8
    }
}

} // verus!
