use harmonizer::buffer::{PixelBuffer, Rgb};
use harmonizer::color::{Hsl, Srgb};
use harmonizer::effects::{
    add_film_grain, add_vhs_effect, apply_gradient_overlay, apply_watercolor_effect,
    boost_saturation, darken_even_rows, grain_pixel, overlay_shifted_copies, pixelate,
    scale_saturation, store_plain_pixel, tint_pixel, SCANLINE_DIM, WATERCOLOR_NOISE,
};
use palette::FromColor;

fn numbered(width: u32, height: u32) -> PixelBuffer {
    let mut raw: Vec<u8> = Vec::new();
    for i in 0..(width * height) {
        let v = (30 + 10 * i) as u8;
        raw.push(v);
        raw.push(v + 1);
        raw.push(v + 2);
    }
    PixelBuffer::from_raw(width, height, &raw).unwrap()
}

fn px(v: u8) -> Rgb {
    Rgb { r: v, g: v + 1, b: v + 2 }
}

fn dark(v: u8) -> Rgb {
    Rgb { r: v - 20, g: v - 19, b: v - 18 }
}

fn gradient_amounts(height: u32) -> Vec<(u8, u8)> {
    (0..height)
        .map(|y| {
            let position = y as f32 / height as f32;
            ((position * 255.0) as u8, ((1.0 - position) * 255.0) as u8)
        })
        .collect()
}

fn to_hsl(p: Rgb) -> Hsl {
    let srgb: palette::Srgb<f32> = palette::Srgb::new(p.r, p.g, p.b).into_format();
    let hsl: palette::Hsl = palette::Hsl::from_color(srgb);
    Hsl {
        hue: (hsl.hue.into_degrees() * 1000.0).round() as i32,
        saturation: (hsl.saturation * 1_000_000.0).round() as u32,
        lightness: (hsl.lightness * 1_000_000.0).round() as u32,
    }
}

fn hsl_to_rgb(c: Hsl) -> Srgb {
    let hsl: palette::Hsl = palette::Hsl::new(
        c.hue as f32 / 1000.0,
        c.saturation as f32 / 1_000_000.0,
        c.lightness as f32 / 1_000_000.0,
    );
    let srgb: palette::Srgb<f32> = palette::Srgb::from_color(hsl);
    Srgb {
        r: (srgb.red * 1_000_000.0).round() as i32,
        g: (srgb.green * 1_000_000.0).round() as i32,
        b: (srgb.blue * 1_000_000.0).round() as i32,
    }
}

#[test]
fn grain_pixel_adds_noise_to_every_channel() {
    let p = Rgb { r: 100, g: 150, b: 200 };
    assert_eq!(grain_pixel(p, 0), p);
    assert_eq!(grain_pixel(p, 11), Rgb { r: 111, g: 161, b: 211 });
    assert_eq!(grain_pixel(p, -12), Rgb { r: 88, g: 138, b: 188 });
}

#[test]
fn grain_pixel_clamps_to_a_byte() {
    let p = Rgb { r: 5, g: 128, b: 250 };
    assert_eq!(grain_pixel(p, 10), Rgb { r: 15, g: 138, b: 255 });
    assert_eq!(grain_pixel(p, -10), Rgb { r: 0, g: 118, b: 240 });
    assert_eq!(grain_pixel(p, i16::MAX), Rgb { r: 255, g: 255, b: 255 });
    assert_eq!(grain_pixel(p, i16::MIN), Rgb { r: 0, g: 0, b: 0 });
}

#[test]
fn film_grain_stays_within_the_intensity() {
    let mut img = PixelBuffer::new(40, 25, Rgb { r: 100, g: 128, b: 150 }).unwrap();
    add_film_grain(&mut img, 12);
    assert_eq!(img.width(), 40);
    assert_eq!(img.height(), 25);
    let mut seen = [false; 24];
    for i in 0..img.len() {
        let p = img.get(i);
        let noise = p.r as i32 - 100;
        assert!(-12 <= noise && noise < 12);
        assert_eq!(p.g as i32 - 128, noise);
        assert_eq!(p.b as i32 - 150, noise);
        seen[(noise + 12) as usize] = true;
    }
    // A thousand draws from 24 values do not all agree.
    assert!(seen.iter().filter(|s| **s).count() > 1);
}

#[test]
fn film_grain_of_intensity_one_never_brightens() {
    let before = Rgb { r: 0, g: 1, b: 255 };
    let mut img = PixelBuffer::new(8, 8, before).unwrap();
    add_film_grain(&mut img, 1);
    for i in 0..img.len() {
        let p = img.get(i);
        assert!(p == before || p == Rgb { r: 0, g: 0, b: 254 });
    }
}

#[test]
fn watercolor_takes_the_blurred_pixels_with_noise() {
    assert_eq!(WATERCOLOR_NOISE, 10);
    let mut img = PixelBuffer::new(30, 30, Rgb { r: 1, g: 2, b: 3 }).unwrap();
    let blurred = PixelBuffer::new(30, 30, Rgb { r: 60, g: 120, b: 180 }).unwrap();
    apply_watercolor_effect(&mut img, &blurred);
    assert_eq!(img.width(), 30);
    assert_eq!(img.height(), 30);
    let mut seen = [false; 20];
    for i in 0..img.len() {
        let p = img.get(i);
        let noise = p.r as i32 - 60;
        assert!(-10 <= noise && noise < 10);
        assert_eq!(p.g as i32 - 120, noise);
        assert_eq!(p.b as i32 - 180, noise);
        seen[(noise + 10) as usize] = true;
    }
    assert!(seen.iter().filter(|s| **s).count() > 1);
}

#[test]
fn gradient_amounts_grow_and_fall_with_the_row() {
    assert_eq!(gradient_amounts(4), vec![(0, 255), (63, 191), (127, 127), (191, 63)]);
    assert_eq!(gradient_amounts(3), vec![(0, 255), (85, 169), (170, 84)]);
    assert_eq!(gradient_amounts(1), vec![(0, 255)]);
}

#[test]
fn tint_pixel_adds_half_the_amounts_and_saturates() {
    let p = Rgb { r: 200, g: 17, b: 250 };
    assert_eq!(tint_pixel(p, 63, 191), Rgb { r: 231, g: 17, b: 255 });
    assert_eq!(tint_pixel(p, 110, 10), Rgb { r: 255, g: 17, b: 255 });
    assert_eq!(tint_pixel(p, 111, 11), Rgb { r: 255, g: 17, b: 255 });
    assert_eq!(tint_pixel(p, 1, 1), p);
    assert_eq!(tint_pixel(p, 0, 0), p);
    let q = Rgb { r: 0, g: 0, b: 0 };
    assert_eq!(tint_pixel(q, 169, 255), Rgb { r: 84, g: 0, b: 127 });
}

#[test]
fn gradient_overlay_tints_each_row() {
    let mut img = PixelBuffer::new(2, 4, Rgb { r: 100, g: 50, b: 150 }).unwrap();
    apply_gradient_overlay(&mut img, &gradient_amounts(4));
    assert_eq!(img.width(), 2);
    assert_eq!(img.height(), 4);
    let rows = [
        Rgb { r: 100, g: 50, b: 255 },
        Rgb { r: 131, g: 50, b: 245 },
        Rgb { r: 163, g: 50, b: 213 },
        Rgb { r: 195, g: 50, b: 181 },
    ];
    for y in 0..4u32 {
        for x in 0..2u32 {
            assert_eq!(img.get_pixel(x, y), rows[y as usize]);
        }
    }
}

#[test]
fn gradient_overlay_of_three_rows_adds_84_to_the_blue_of_the_middle_row() {
    let mut img = PixelBuffer::new(1, 3, Rgb { r: 0, g: 0, b: 0 }).unwrap();
    apply_gradient_overlay(&mut img, &gradient_amounts(3));
    assert_eq!(img.get_pixel(0, 0), Rgb { r: 0, g: 0, b: 127 });
    assert_eq!(img.get_pixel(0, 1), Rgb { r: 42, g: 0, b: 84 });
    assert_eq!(img.get_pixel(0, 2), Rgb { r: 85, g: 0, b: 42 });
}

#[test]
fn gradient_overlay_takes_the_amounts_of_the_row_of_each_pixel() {
    let mut img = PixelBuffer::new(3, 2, Rgb { r: 10, g: 20, b: 30 }).unwrap();
    apply_gradient_overlay(&mut img, &vec![(2, 4), (100, 255)]);
    for x in 0..3u32 {
        assert_eq!(img.get_pixel(x, 0), Rgb { r: 11, g: 20, b: 32 });
        assert_eq!(img.get_pixel(x, 1), Rgb { r: 60, g: 20, b: 157 });
    }
}

#[test]
fn gradient_overlay_leaves_an_empty_image_empty() {
    let mut img = PixelBuffer::new(0, 0, Rgb { r: 0, g: 0, b: 0 }).unwrap();
    apply_gradient_overlay(&mut img, &Vec::new());
    assert_eq!(img.len(), 0);
    let mut narrow = PixelBuffer::new(0, 3, Rgb { r: 0, g: 0, b: 0 }).unwrap();
    apply_gradient_overlay(&mut narrow, &gradient_amounts(3));
    assert_eq!(narrow.len(), 0);
    assert_eq!(narrow.height(), 3);
}

#[test]
fn shifted_copies_move_rows_up_and_the_last_row_left() {
    // 30 40 50 60
    // 70 80 90 100
    // 110 120 130 140
    let mut img = numbered(4, 3);
    overlay_shifted_copies(&mut img);
    assert_eq!(img.width(), 4);
    assert_eq!(img.height(), 3);
    let expected = [70, 80, 90, 100, 110, 120, 130, 140, 130, 140, 130, 140];
    for i in 0..12 {
        assert_eq!(img.get(i), px(expected[i]));
    }
}

#[test]
fn scanlines_darken_even_rows() {
    assert_eq!(SCANLINE_DIM, 20);
    let mut img = numbered(2, 3);
    darken_even_rows(&mut img);
    let expected = [dark(30), dark(40), px(50), px(60), dark(70), dark(80)];
    for i in 0..6 {
        assert_eq!(img.get(i), expected[i]);
    }
    let mut low = PixelBuffer::new(1, 1, Rgb { r: 0, g: 19, b: 20 }).unwrap();
    darken_even_rows(&mut low);
    assert_eq!(low.get(0), Rgb { r: 0, g: 0, b: 0 });
    let mut empty = PixelBuffer::new(0, 0, Rgb { r: 0, g: 0, b: 0 }).unwrap();
    darken_even_rows(&mut empty);
    assert_eq!(empty.len(), 0);
}

#[test]
fn vhs_effect_shifts_then_darkens() {
    let mut img = numbered(4, 3);
    add_vhs_effect(&mut img);
    let expected = [
        dark(70),
        dark(80),
        dark(90),
        dark(100),
        px(110),
        px(120),
        px(130),
        px(140),
        dark(130),
        dark(140),
        dark(130),
        dark(140),
    ];
    for i in 0..12 {
        assert_eq!(img.get(i), expected[i]);
    }
}

#[test]
fn vhs_effect_on_the_smallest_images() {
    let mut pair = numbered(2, 1);
    add_vhs_effect(&mut pair);
    assert_eq!(pair.get(0), dark(30));
    assert_eq!(pair.get(1), dark(40));

    let mut row = numbered(3, 1);
    add_vhs_effect(&mut row);
    assert_eq!(row.get(0), dark(50));
    assert_eq!(row.get(1), dark(40));
    assert_eq!(row.get(2), dark(50));

    let mut square = numbered(2, 2);
    add_vhs_effect(&mut square);
    assert_eq!(square.get(0), dark(50));
    assert_eq!(square.get(1), dark(60));
    assert_eq!(square.get(2), px(50));
    assert_eq!(square.get(3), px(60));
}

#[test]
fn pixelate_with_blocks_of_one_changes_nothing() {
    let mut img = numbered(4, 3);
    pixelate(&mut img, 1);
    assert_eq!(img.to_raw(), numbered(4, 3).to_raw());
}

#[test]
fn pixelate_makes_uniform_blocks() {
    let mut img = numbered(4, 4);
    pixelate(&mut img, 2);
    assert_eq!(img.width(), 4);
    assert_eq!(img.height(), 4);
    let before = numbered(4, 4);
    for y in 0..4u32 {
        for x in 0..4u32 {
            let sample = before.get_pixel(2 * (x / 2) + 1, 2 * (y / 2) + 1);
            assert_eq!(img.get_pixel(x, y), sample);
        }
    }
}

#[test]
fn pixelate_brings_no_new_colour() {
    let before = numbered(5, 4);
    for block_size in 1..=4u32 {
        let mut img = numbered(5, 4);
        pixelate(&mut img, block_size);
        for i in 0..img.len() {
            let p = img.get(i);
            assert!((0..before.len()).any(|j| before.get(j) == p));
        }
    }
    let mut uniform = PixelBuffer::new(6, 6, Rgb { r: 9, g: 99, b: 199 }).unwrap();
    pixelate(&mut uniform, 3);
    for i in 0..uniform.len() {
        assert_eq!(uniform.get(i), Rgb { r: 9, g: 99, b: 199 });
    }
}

#[test]
fn pixelate_with_blocks_larger_than_the_image_gives_black() {
    let mut img = numbered(4, 3);
    pixelate(&mut img, 4);
    assert_eq!(img.width(), 4);
    assert_eq!(img.height(), 3);
    for i in 0..img.len() {
        assert_eq!(img.get(i), Rgb { r: 0, g: 0, b: 0 });
    }
    let mut other = numbered(2, 5);
    pixelate(&mut other, u32::MAX);
    for i in 0..other.len() {
        assert_eq!(other.get(i), Rgb { r: 0, g: 0, b: 0 });
    }
}

#[test]
fn scale_saturation_multiplies_by_the_percentage() {
    let c = Hsl { hue: 120_000, saturation: 400_000, lightness: 500_000 };
    assert_eq!(
        scale_saturation(c, 150),
        Hsl { hue: 120_000, saturation: 600_000, lightness: 500_000 }
    );
    assert_eq!(scale_saturation(c, 100), c);
    assert_eq!(scale_saturation(c, 0).saturation, 0);
    assert_eq!(scale_saturation(c, 33).saturation, 132_000);
    let odd = Hsl { hue: -5, saturation: 7, lightness: 1 };
    assert_eq!(scale_saturation(odd, 150).saturation, 10);
    let full = Hsl { hue: 0, saturation: u32::MAX, lightness: 0 };
    assert_eq!(scale_saturation(full, 150).saturation, u32::MAX);
    assert_eq!(scale_saturation(full, u32::MAX).saturation, u32::MAX);
}

#[test]
fn plain_pixel_clamps_each_channel() {
    let levels = Srgb { r: -3, g: 500_000, b: 1_200_000 };
    assert_eq!(store_plain_pixel(levels), Rgb { r: 0, g: 127, b: 255 });
}

#[test]
fn saturation_boost_leaves_grey_grey() {
    let mut img = PixelBuffer::new(2, 2, Rgb { r: 128, g: 128, b: 128 }).unwrap();
    boost_saturation(&mut img, 150, to_hsl, hsl_to_rgb);
    for i in 0..img.len() {
        let p = img.get(i);
        assert!((p.r as i32 - 128).abs() <= 1);
        assert_eq!(p.r, p.g);
        assert_eq!(p.g, p.b);
    }
}

#[test]
fn saturation_boost_widens_the_spread_of_channels() {
    let before = Rgb { r: 160, g: 120, b: 100 };
    let mut img = PixelBuffer::new(1, 1, before).unwrap();
    boost_saturation(&mut img, 150, to_hsl, hsl_to_rgb);
    let p = img.get(0);
    assert!(p.r > before.r);
    assert!(p.b < before.b);
    assert!((p.r as i32 - p.b as i32) > (before.r as i32 - before.b as i32));
    // Lightness, the mean of the largest and the smallest channel, stays.
    assert!(((p.r as i32 + p.b as i32) - (before.r as i32 + before.b as i32)).abs() <= 3);
}

#[test]
fn saturation_boost_of_one_hundred_percent_changes_little() {
    let before = [
        Rgb { r: 160, g: 120, b: 100 },
        Rgb { r: 0, g: 0, b: 0 },
        Rgb { r: 255, g: 255, b: 255 },
        Rgb { r: 10, g: 200, b: 90 },
    ];
    let mut raw: Vec<u8> = Vec::new();
    for p in before {
        raw.push(p.r);
        raw.push(p.g);
        raw.push(p.b);
    }
    let mut img = PixelBuffer::from_raw(2, 2, &raw).unwrap();
    boost_saturation(&mut img, 100, to_hsl, hsl_to_rgb);
    for i in 0..4 {
        let p = img.get(i);
        assert!((p.r as i32 - before[i].r as i32).abs() <= 1);
        assert!((p.g as i32 - before[i].g as i32).abs() <= 1);
        assert!((p.b as i32 - before[i].b as i32).abs() <= 1);
    }
}
