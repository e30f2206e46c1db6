//! The harmonization pass over a whole image.
//!
//! The pass works on integers throughout. What it needs from floating
//! point, the conversions between stored pixels and L*a*b* and the
//! exponential in the sigmoid, it is handed as functions; its contract holds
//! for whatever they return.

use vstd::prelude::*;
use crate::blend::{blend_color, blended, chroma_gap_a, chroma_gap_b, chroma_gaps,
    lemma_edge_mask_extremes, lemma_zero_strength_keeps_chroma, sigmoid_argument,
    sigmoid_exponent, sigmoid_from_decay, sigmoid_weight, store_channel, stored_channel,
    CONTRAST_GAIN};
use crate::buffer::{GrayBuffer, PixelBuffer, Rgb};
use crate::color::{Lab, Srgb};

verus! {

/// The pixel that is stored for the sRGB levels `levels`: each channel with
/// the contrast compensation applied, clamped and scaled to a byte.
pub open spec fn stored_pixel(levels: Srgb) -> Rgb {
    Rgb {
        r: stored_channel(levels.r as int, CONTRAST_GAIN as int) as u8,
        g: stored_channel(levels.g as int, CONTRAST_GAIN as int) as u8,
        b: stored_channel(levels.b as int, CONTRAST_GAIN as int) as u8,
    }
}

/// The mask value of the pixel at position `i`, where there is a mask.
pub open spec fn mask_value(mask: Option<&GrayBuffer>, i: int) -> Option<u8> {
    match mask {
        Some(m) => Some(m@[i]),
        None => None,
    }
}

/// The sigmoid argument of the `a` channel of `lab`.
pub open spec fn argument_a(lab: Lab) -> u32 {
    sigmoid_argument(chroma_gap_a(lab) as int) as u32
}

/// The sigmoid argument of the `b` channel of `lab`.
pub open spec fn argument_b(lab: Lab) -> u32 {
    sigmoid_argument(chroma_gap_b(lab) as int) as u32
}

/// Whether `out` is a harmonized form of the pixel `px`: `px` converted to
/// L*a*b* by `to_lab`, blended toward its palette match with the sigmoid
/// weights that follow from what `decay` gives for its two sigmoid
/// arguments, converted back by `to_rgb`, and stored.
pub open spec fn harmonized_pixel<A, D, R>(
    to_lab: A,
    decay: D,
    to_rgb: R,
    strength: int,
    px: Rgb,
    edge: Option<u8>,
    out: Rgb,
) -> bool where A: Fn(Rgb) -> Lab, D: Fn(u32) -> u32, R: Fn(Lab) -> Srgb {
    exists|lab: Lab, ea: u32, eb: u32, levels: Srgb|
        {
            &&& #[trigger] call_ensures(to_lab, (px,), lab)
            &&& #[trigger] call_ensures(decay, (argument_a(lab),), ea)
            &&& #[trigger] call_ensures(decay, (argument_b(lab),), eb)
            &&& #[trigger] call_ensures(
                to_rgb,
                (
                    blended(
                        lab,
                        strength,
                        sigmoid_weight(ea as int),
                        sigmoid_weight(eb as int),
                        edge,
                    ),
                ),
                levels,
            )
            &&& out == stored_pixel(levels)
        }
}

/// Whether `out` is what is stored for some colour that `to_rgb` was handed
/// and that keeps the chroma that `to_lab` found in `px`.
pub open spec fn stored_with_chroma_kept<A, R>(
    to_lab: A,
    to_rgb: R,
    px: Rgb,
    out: Rgb,
) -> bool where A: Fn(Rgb) -> Lab, R: Fn(Lab) -> Srgb {
    exists|lab: Lab, kept: Lab, levels: Srgb|
        {
            &&& #[trigger] call_ensures(to_lab, (px,), lab)
            &&& #[trigger] call_ensures(to_rgb, (kept,), levels)
            &&& kept.a == lab.a
            &&& kept.b == lab.b
            &&& out == stored_pixel(levels)
        }
}

/// Whether `out` is what is stored for some colour that `to_rgb` was handed
/// and that keeps the lightness that `to_lab` found in `px`.
pub open spec fn stored_with_lightness_kept<A, R>(
    to_lab: A,
    to_rgb: R,
    px: Rgb,
    out: Rgb,
) -> bool where A: Fn(Rgb) -> Lab, R: Fn(Lab) -> Srgb {
    exists|lab: Lab, kept: Lab, levels: Srgb|
        {
            &&& #[trigger] call_ensures(to_lab, (px,), lab)
            &&& #[trigger] call_ensures(to_rgb, (kept,), levels)
            &&& kept.l == lab.l
            &&& out == stored_pixel(levels)
        }
}

/// Identity at zero strength: a pixel harmonized at a strength of 0 or
/// below, with or without a mask, is stored from a colour with the chroma of
/// the pixel itself.
pub proof fn lemma_zero_strength_pixel<A, D, R>(
    to_lab: A,
    decay: D,
    to_rgb: R,
    strength: int,
    px: Rgb,
    edge: Option<u8>,
    out: Rgb,
) where A: Fn(Rgb) -> Lab, D: Fn(u32) -> u32, R: Fn(Lab) -> Srgb
    requires
        strength <= 0,
        harmonized_pixel(to_lab, decay, to_rgb, strength, px, edge, out),
    ensures
        stored_with_chroma_kept(to_lab, to_rgb, px, out),
{
    let (lab, ea, eb, levels) = choose|lab: Lab, ea: u32, eb: u32, levels: Srgb|
        {
            &&& #[trigger] call_ensures(to_lab, (px,), lab)
            &&& #[trigger] call_ensures(decay, (argument_a(lab),), ea)
            &&& #[trigger] call_ensures(decay, (argument_b(lab),), eb)
            &&& #[trigger] call_ensures(
                to_rgb,
                (
                    blended(
                        lab,
                        strength,
                        sigmoid_weight(ea as int),
                        sigmoid_weight(eb as int),
                        edge,
                    ),
                ),
                levels,
            )
            &&& out == stored_pixel(levels)
        };
    let wa = sigmoid_weight(ea as int);
    let wb = sigmoid_weight(eb as int);
    assert(0 <= wa && 0 <= wb) by (nonlinear_arith)
        requires
            wa == sigmoid_weight(ea as int),
            wb == sigmoid_weight(eb as int),
    ;
    lemma_zero_strength_keeps_chroma(lab, strength, strength, wa, wb, edge);
    let kept = blended(lab, strength, wa, wb, edge);
    assert(call_ensures(to_lab, (px,), lab) && call_ensures(to_rgb, (kept,), levels));
}

/// Edge mask attenuation, where the mask is 255: the pixel is harmonized
/// exactly as without a mask.
pub proof fn lemma_full_mask_is_no_mask<A, D, R>(
    to_lab: A,
    decay: D,
    to_rgb: R,
    strength: int,
    px: Rgb,
    out: Rgb,
) where A: Fn(Rgb) -> Lab, D: Fn(u32) -> u32, R: Fn(Lab) -> Srgb
    ensures
        harmonized_pixel(to_lab, decay, to_rgb, strength, px, Some(255u8), out)
            == harmonized_pixel(to_lab, decay, to_rgb, strength, px, None, out),
{
    // Any blend, with any mask value, brings the equality into play.
    assert forall|lab: Lab, wa: int, wb: int, edge: Option<u8>|
        #[trigger] blended(lab, strength, wa, wb, edge) == blended(lab, strength, wa, wb, edge)
            implies blended(lab, strength, wa, wb, Some(255u8)) == blended(
            lab,
            strength,
            wa,
            wb,
            None,
        ) by {
        lemma_edge_mask_extremes(lab, strength, wa, wb, 255u8);
    }
}

/// Edge mask attenuation, where the mask is 0: the pixel is stored from a
/// colour with the lightness of the pixel itself.
pub proof fn lemma_zero_mask_pixel<A, D, R>(
    to_lab: A,
    decay: D,
    to_rgb: R,
    strength: int,
    px: Rgb,
    out: Rgb,
) where A: Fn(Rgb) -> Lab, D: Fn(u32) -> u32, R: Fn(Lab) -> Srgb
    requires
        harmonized_pixel(to_lab, decay, to_rgb, strength, px, Some(0u8), out),
    ensures
        stored_with_lightness_kept(to_lab, to_rgb, px, out),
{
    let (lab, ea, eb, levels) = choose|lab: Lab, ea: u32, eb: u32, levels: Srgb|
        {
            &&& #[trigger] call_ensures(to_lab, (px,), lab)
            &&& #[trigger] call_ensures(decay, (argument_a(lab),), ea)
            &&& #[trigger] call_ensures(decay, (argument_b(lab),), eb)
            &&& #[trigger] call_ensures(
                to_rgb,
                (
                    blended(
                        lab,
                        strength,
                        sigmoid_weight(ea as int),
                        sigmoid_weight(eb as int),
                        Some(0u8),
                    ),
                ),
                levels,
            )
            &&& out == stored_pixel(levels)
        };
    let wa = sigmoid_weight(ea as int);
    let wb = sigmoid_weight(eb as int);
    lemma_edge_mask_extremes(lab, strength, wa, wb, 0u8);
    let kept = blended(lab, strength, wa, wb, Some(0u8));
    assert(call_ensures(to_lab, (px,), lab) && call_ensures(to_rgb, (kept,), levels));
}

/// Applies the contrast compensation to each channel of `levels`, clamps and
/// stores it.
pub fn store_pixel(levels: Srgb) -> (p: Rgb)
    ensures
        p == stored_pixel(levels),
{
    Rgb {
        r: store_channel(levels.r, CONTRAST_GAIN),
        g: store_channel(levels.g, CONTRAST_GAIN),
        b: store_channel(levels.b, CONTRAST_GAIN),
    }
}

/// Harmonizes one pixel: converts it to L*a*b*, blends it toward its palette
/// match, converts it back and stores it with the contrast compensation.
pub fn harmonize_pixel<A, D, R>(
    px: Rgb,
    strength: i32,
    edge: Option<u8>,
    to_lab: &A,
    decay: &D,
    to_rgb: &R,
) -> (out: Rgb) where A: Fn(Rgb) -> Lab, D: Fn(u32) -> u32, R: Fn(Lab) -> Srgb
    requires
        forall|p: Rgb| call_requires(*to_lab, (p,)),
        forall|t: u32| call_requires(*decay, (t,)),
        forall|c: Lab| call_requires(*to_rgb, (c,)),
    ensures
        harmonized_pixel(*to_lab, *decay, *to_rgb, strength as int, px, edge, out),
{
    let lab = to_lab(px);
    let gaps = chroma_gaps(&lab);
    let ta = sigmoid_exponent(gaps.0);
    let tb = sigmoid_exponent(gaps.1);
    assert(ta == argument_a(lab) && tb == argument_b(lab));
    let ea = decay(ta);
    let eb = decay(tb);
    let mixed = blend_color(
        lab,
        strength,
        sigmoid_from_decay(ea),
        sigmoid_from_decay(eb),
        edge,
    );
    let levels = to_rgb(mixed);
    store_pixel(levels)
}

/// Whether `mask`, where there is one, has the size of `img`.
pub open spec fn mask_fits(mask: Option<&GrayBuffer>, img: PixelBuffer) -> bool {
    mask matches Some(m) ==> {
        &&& m.wf()
        &&& m.spec_width() == img.spec_width()
        &&& m.spec_height() == img.spec_height()
    }
}

/// Recolours `img` in place toward the palette. Every pixel is harmonized
/// once and on its own: the result at a position depends on the pixel and
/// the mask value at that position and on nothing else, so the order of the
/// visit does not matter. The size of the image does not change.
///
/// `strength` is in billionths and is clamped to the range from 0 to 1
/// before use. `to_lab` and `to_rgb` convert between stored pixels and
/// L*a*b*, and `decay` gives the exponential of the negated argument: for
/// `t`, in millionths, `exp(-t / 1_000_000)` in billionths. An edge mask
/// must have the size of the image.
pub fn enhanced_harmonization<A, D, R>(
    img: &mut PixelBuffer,
    strength: i32,
    edge_mask: Option<&GrayBuffer>,
    to_lab: A,
    decay: D,
    to_rgb: R,
) where A: Fn(Rgb) -> Lab, D: Fn(u32) -> u32, R: Fn(Lab) -> Srgb
    requires
        old(img).wf(),
        mask_fits(edge_mask, *old(img)),
        forall|p: Rgb| call_requires(to_lab, (p,)),
        forall|t: u32| call_requires(decay, (t,)),
        forall|c: Lab| call_requires(to_rgb, (c,)),
    ensures
        final(img).wf(),
        final(img).spec_width() == old(img).spec_width(),
        final(img).spec_height() == old(img).spec_height(),
        final(img)@.len() == old(img)@.len(),
        forall|i: int|
            0 <= i < old(img)@.len() ==> harmonized_pixel(
                to_lab,
                decay,
                to_rgb,
                strength as int,
                old(img)@[i],
                mask_value(edge_mask, i),
                #[trigger] final(img)@[i],
            ),
{
    let ghost before = img@;
    let n: usize = img.len();
    let mut i: usize = 0;
    while i < n
        invariant
            i <= n,
            n == before.len(),
            img@.len() == n,
            img.wf(),
            img.spec_width() == old(img).spec_width(),
            img.spec_height() == old(img).spec_height(),
            before == old(img)@,
            edge_mask matches Some(m) ==> m@.len() == n,
            forall|p: Rgb| call_requires(to_lab, (p,)),
            forall|t: u32| call_requires(decay, (t,)),
            forall|c: Lab| call_requires(to_rgb, (c,)),
            forall|j: int|
                0 <= j < i ==> harmonized_pixel(
                    to_lab,
                    decay,
                    to_rgb,
                    strength as int,
                    before[j],
                    mask_value(edge_mask, j),
                    #[trigger] img@[j],
                ),
            forall|j: int| i <= j < n ==> img@[j] == before[j],
        decreases n - i,
    {
        let px = img.get(i);
        let edge: Option<u8> = match edge_mask {
            Some(m) => Some(m.get(i)),
            None => None,
        };
        let out = harmonize_pixel(px, strength, edge, &to_lab, &decay, &to_rgb);
        img.set(i, out);
        i += 1;
    }
}

} // verus!
