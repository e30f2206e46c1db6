//! Colours in CIE L*a*b*, the fixed target palette, and the nearest-entry
//! search.

use vstd::prelude::*;

verus! {

/// A colour in CIE L*a*b* under the D65 white point. Each channel is held in
/// millionths of a unit, so lightness 29.77 is `29_770_000`.
#[derive(Clone, Copy, Debug, PartialEq, Eq, Structural)]
pub struct Lab {
    pub l: i32,
    pub a: i32,
    pub b: i32,
}

/// A gamma-encoded sRGB colour before it is stored: each channel in
/// millionths of full scale, so 1_000_000 is the brightest level. Levels
/// outside the range from 0 to 1_000_000 are allowed here and are clamped
/// when the colour is stored.
#[derive(Clone, Copy, Debug, PartialEq, Eq, Structural)]
pub struct Srgb {
    pub r: i32,
    pub g: i32,
    pub b: i32,
}

/// A colour in HSL: hue in thousandths of a degree, saturation and
/// lightness in millionths.
#[derive(Clone, Copy, Debug, PartialEq, Eq, Structural)]
pub struct Hsl {
    pub hue: i32,
    pub saturation: u32,
    pub lightness: u32,
}

/// Number of entries of the palette.
pub const PALETTE_LEN: usize = 9;

/// The target palette: background, foreground, red, green, yellow, blue,
/// purple, aqua, orange.
pub open spec fn palette() -> Seq<Lab> {
    seq![
        Lab { l: 29_770_000, a: 160_000, b: 200_000 },
        Lab { l: 86_970_000, a: -860_000i32, b: 9_920_000 },
        Lab { l: 44_360_000, a: 55_400_000, b: 37_130_000 },
        Lab { l: 56_830_000, a: -21_990_000i32, b: 56_270_000 },
        Lab { l: 65_170_000, a: 10_150_000, b: 57_420_000 },
        Lab { l: 49_590_000, a: -9_260_000i32, b: -24_910_000i32 },
        Lab { l: 51_700_000, a: 34_040_000, b: -14_600_000i32 },
        Lab { l: 58_690_000, a: -28_300_000i32, b: 15_250_000 },
        Lab { l: 53_330_000, a: 39_770_000, b: 52_780_000 },
    ]
}

/// Squared Euclidean distance of two colours, in squared millionths.
pub open spec fn dist_sq(x: Lab, y: Lab) -> int {
    (x.l - y.l) * (x.l - y.l) + (x.a - y.a) * (x.a - y.a) + (x.b - y.b) * (x.b - y.b)
}

/// Index of the first entry among the first `n` of the palette that is
/// closest to `color`.
pub open spec fn nearest_among(color: Lab, n: nat) -> int
    decreases n,
{
    if n <= 1 {
        0
    } else {
        let best = nearest_among(color, (n - 1) as nat);
        if dist_sq(color, palette()[n - 1]) < dist_sq(color, palette()[best]) {
            n - 1
        } else {
            best
        }
    }
}

/// Index of the palette entry closest to `color`; of several equally close
/// entries, the first.
pub open spec fn nearest_index(color: Lab) -> int {
    nearest_among(color, PALETTE_LEN as nat)
}

/// `nearest_among(color, n)` is an index below `n`, no entry below `n` is
/// closer, and every entry before it is strictly farther.
pub proof fn lemma_nearest_among(color: Lab, n: nat)
    requires
        1 <= n <= PALETTE_LEN,
    ensures
        0 <= nearest_among(color, n) < n,
        forall|j: int|
            0 <= j < n ==> dist_sq(color, palette()[nearest_among(color, n)]) <= dist_sq(
                color,
                #[trigger] palette()[j],
            ),
        forall|j: int|
            0 <= j < nearest_among(color, n) ==> dist_sq(
                color,
                palette()[nearest_among(color, n)],
            ) < dist_sq(color, #[trigger] palette()[j]),
    decreases n,
{
    if n > 1 {
        lemma_nearest_among(color, (n - 1) as nat);
    }
}

/// Two colours at distance zero are the same colour.
pub proof fn lemma_zero_distance_is_equality(x: Lab, y: Lab)
    ensures
        dist_sq(x, y) >= 0,
        dist_sq(x, y) == 0 <==> x == y,
{
    let dl = x.l - y.l;
    let da = x.a - y.a;
    let db = x.b - y.b;
    assert(dl * dl >= 0 && (dl * dl == 0 <==> dl == 0)) by (nonlinear_arith);
    assert(da * da >= 0 && (da * da == 0 <==> da == 0)) by (nonlinear_arith);
    assert(db * db >= 0 && (db * db == 0 <==> db == 0)) by (nonlinear_arith);
}

/// A colour that is an entry of the palette has that entry as its nearest:
/// the search returns the entry's own index, at distance zero.
pub proof fn lemma_entry_is_own_nearest(i: int)
    requires
        0 <= i < PALETTE_LEN,
    ensures
        nearest_index(palette()[i]) == i,
        dist_sq(palette()[i], palette()[nearest_index(palette()[i])]) == 0,
{
    let color = palette()[i];
    let k = nearest_index(color);
    lemma_nearest_among(color, PALETTE_LEN as nat);
    lemma_zero_distance_is_equality(color, palette()[i]);
    lemma_zero_distance_is_equality(color, palette()[k]);
    assert(dist_sq(color, palette()[k]) <= dist_sq(color, palette()[i]));
    assert(palette()[k] == palette()[i]);
    assert(palette()[k].l == palette()[i].l);
}

/// The entry of the palette at `index`.
pub fn palette_entry(index: usize) -> (c: Lab)
    requires
        index < PALETTE_LEN,
    ensures
        c == palette()[index as int],
{
    if index == 0 {
        Lab { l: 29_770_000, a: 160_000, b: 200_000 }
    } else if index == 1 {
        Lab { l: 86_970_000, a: -860_000, b: 9_920_000 }
    } else if index == 2 {
        Lab { l: 44_360_000, a: 55_400_000, b: 37_130_000 }
    } else if index == 3 {
        Lab { l: 56_830_000, a: -21_990_000, b: 56_270_000 }
    } else if index == 4 {
        Lab { l: 65_170_000, a: 10_150_000, b: 57_420_000 }
    } else if index == 5 {
        Lab { l: 49_590_000, a: -9_260_000, b: -24_910_000 }
    } else if index == 6 {
        Lab { l: 51_700_000, a: 34_040_000, b: -14_600_000 }
    } else if index == 7 {
        Lab { l: 58_690_000, a: -28_300_000, b: 15_250_000 }
    } else {
        Lab { l: 53_330_000, a: 39_770_000, b: 52_780_000 }
    }
}

fn channel_gap_squared(p: i32, q: i32) -> (s: u128)
    ensures
        s == (p - q) * (p - q),
        s <= 0x1_0000_0000_0000_0000,
{
    let d: i128 = p as i128 - q as i128;
    assert(0 <= d * d <= 0x1_0000_0000_0000_0000) by (nonlinear_arith)
        requires
            -0x1_0000_0000 <= d <= 0x1_0000_0000,
    ;
    (d * d) as u128
}

/// Squared Euclidean distance of two colours.
pub fn distance_squared(x: &Lab, y: &Lab) -> (d: u128)
    ensures
        d == dist_sq(*x, *y),
{
    channel_gap_squared(x.l, y.l) + channel_gap_squared(x.a, y.a) + channel_gap_squared(x.b, y.b)
}

/// Finds the palette entry closest to `color` by exact squared distance.
/// Ties go to the entry that comes first in the palette.
pub fn nearest(color: &Lab) -> (index: usize)
    ensures
        index == nearest_index(*color),
        index < PALETTE_LEN,
{
    let mut best: usize = 0;
    let mut best_d: u128 = distance_squared(color, &palette_entry(0));
    let mut i: usize = 1;
    while i < PALETTE_LEN
        invariant
            1 <= i <= PALETTE_LEN,
            best == nearest_among(*color, i as nat),
            best < i,
            best_d == dist_sq(*color, palette()[best as int]),
        decreases PALETTE_LEN - i,
    {
        let d: u128 = distance_squared(color, &palette_entry(i));
        if d < best_d {
            best = i;
            best_d = d;
        }
        i += 1;
    }
    best
}

} // verus!
