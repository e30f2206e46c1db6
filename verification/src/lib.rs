//! Pulls the colours of a raster image toward a fixed nine-colour palette
//! while keeping its lightness structure, and offers a handful of stylistic
//! post-effects.
//!
//! All colour arithmetic is done on integers: L*a*b* channels and sRGB
//! levels are held in millionths and blend weights in billionths, so every
//! function has an exact contract.

pub mod blend;
pub mod buffer;
pub mod color;
pub mod effects;
pub mod outside;
pub mod pipeline;
pub mod style;
