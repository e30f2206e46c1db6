//! The styles and what each of them asks for: whether harmonization gets an
//! edge mask, how much of the strength it gets, and which effects follow.

use vstd::prelude::*;

verus! {

/// Block size of the mosaic style when it is chosen by name.
pub const DEFAULT_BLOCK_SIZE: u32 = 16;

/// A style of the finished image.
#[derive(Clone, Copy, Debug, PartialEq, Eq, Structural)]
pub enum Style {
    Gruvbox,
    Retro,
    Synthwave,
    /// Pixelated into blocks of the given size.
    Mosaic(u32),
    Watercolor,
}

/// Settings of the edge-preserving smoothing filter whose output is the
/// edge mask. The two sigmas are in tenths.
#[derive(Clone, Copy, Debug, PartialEq, Eq, Structural)]
pub struct MaskSettings {
    pub window_size: u32,
    pub sigma_color: u32,
    pub sigma_spatial: u32,
}

/// A post-effect with its parameter.
#[derive(Clone, Copy, Debug, PartialEq, Eq, Structural)]
pub enum Effect {
    /// Shifted copies and scanlines.
    Vhs,
    /// Film grain of the given intensity.
    FilmGrain(i16),
    /// The vertical red-to-blue tint.
    GradientOverlay,
    /// Saturation multiplied by the given percentage.
    Saturation(u32),
    /// Pixelation into blocks of the given size.
    Pixelate(u32),
    /// Blur with noise.
    Watercolor,
}

/// The edge mask that a style harmonizes with, if any.
pub open spec fn mask_settings_of(style: Style) -> Option<MaskSettings> {
    match style {
        Style::Gruvbox => Some(
            MaskSettings { window_size: 5, sigma_color: 250, sigma_spatial: 20 },
        ),
        Style::Retro => Some(MaskSettings { window_size: 3, sigma_color: 150, sigma_spatial: 15 }),
        _ => None,
    }
}

/// The share of the strength, in percent, that a style harmonizes with.
pub open spec fn strength_share_of(style: Style) -> int {
    match style {
        Style::Synthwave => 80,
        _ => 100,
    }
}

/// The effects that follow harmonization in a style, in their order.
pub open spec fn effects_of(style: Style) -> Seq<Effect> {
    match style {
        Style::Gruvbox => seq![],
        Style::Retro => seq![Effect::Vhs, Effect::FilmGrain(12)],
        Style::Synthwave => seq![Effect::GradientOverlay, Effect::Saturation(150)],
        Style::Mosaic(size) => seq![Effect::Pixelate(size)],
        Style::Watercolor => seq![Effect::Watercolor],
    }
}

/// The strength that harmonization gets when a style grants it `share`
/// percent of `strength`, rounded toward 0.
pub open spec fn shared_strength(strength: int, share: int) -> int {
    if strength >= 0 {
        (strength * share) / 100
    } else {
        -((-strength * share) / 100)
    }
}

/// The style with the given name; any other name gives the default style.
pub open spec fn style_named(name: Seq<char>) -> Style {
    if name == "retro"@ {
        Style::Retro
    } else if name == "synthwave"@ {
        Style::Synthwave
    } else if name == "mosaic"@ {
        Style::Mosaic(DEFAULT_BLOCK_SIZE)
    } else if name == "watercolor"@ {
        Style::Watercolor
    } else {
        Style::Gruvbox
    }
}

impl Style {
    /// The style that `name` stands for: `retro`, `synthwave`, `mosaic`
    /// (with blocks of `DEFAULT_BLOCK_SIZE`) or `watercolor`; any other name
    /// gives `Gruvbox`.
    pub fn from_name(name: &str) -> (style: Style)
        ensures
            style == style_named(name@),
    {
        let owned = name.to_owned();
        if owned == "retro".to_owned() {
            Style::Retro
        } else if owned == "synthwave".to_owned() {
            Style::Synthwave
        } else if owned == "mosaic".to_owned() {
            Style::Mosaic(DEFAULT_BLOCK_SIZE)
        } else if owned == "watercolor".to_owned() {
            Style::Watercolor
        } else {
            Style::Gruvbox
        }
    }

    /// The settings of the edge mask that this style harmonizes with, or
    /// `None` where it harmonizes without a mask.
    pub fn mask_settings(&self) -> (m: Option<MaskSettings>)
        ensures
            m == mask_settings_of(*self),
    {
        match self {
            Style::Gruvbox => Some(
                MaskSettings { window_size: 5, sigma_color: 250, sigma_spatial: 20 },
            ),
            Style::Retro => Some(
                MaskSettings { window_size: 3, sigma_color: 150, sigma_spatial: 15 },
            ),
            _ => None,
        }
    }

    /// The strength, in billionths, that this style harmonizes with when it
    /// is asked for `strength`: four fifths of it for `Synthwave`, all of it
    /// for the other styles.
    pub fn harmonization_strength(&self, strength: i32) -> (s: i32)
        ensures
            s == shared_strength(strength as int, strength_share_of(*self)),
    {
        match self {
            Style::Synthwave => {
                if strength >= 0 {
                    (strength as i64 * 80 / 100) as i32
                } else {
                    let magnitude: i64 = -(strength as i64);
                    (-(magnitude * 80 / 100)) as i32
                }
            },
            _ => {
                assert((strength * 100) / 100 == strength && (-strength * 100) / 100 == -strength);
                strength
            },
        }
    }

    /// The effects that follow harmonization in this style, in their order.
    pub fn effects(&self) -> (e: Vec<Effect>)
        ensures
            e@ == effects_of(*self),
    {
        let mut e: Vec<Effect> = Vec::new();
        match self {
            Style::Gruvbox => {},
            Style::Retro => {
                e.push(Effect::Vhs);
                e.push(Effect::FilmGrain(12));
            },
            Style::Synthwave => {
                e.push(Effect::GradientOverlay);
                e.push(Effect::Saturation(150));
            },
            Style::Mosaic(size) => {
                e.push(Effect::Pixelate(*size));
            },
            Style::Watercolor => {
                e.push(Effect::Watercolor);
            },
        }
        assert(e@ =~= effects_of(*self));
        e
    }
}

} // verus!
