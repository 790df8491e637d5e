//! Packed-color intensity utilities: channel-wise scaling by a
//! fixed-point intensity, and channel-wise saturating addition.
//!
//! A color packs three 8-bit channels as `0x00RRGGBB`.  Channels are
//! extracted arithmetically (`/ 65536 % 256`, `/ 256 % 256`, `% 256`),
//! scaled values are clamped into `[0, 255]` before repacking, and sums
//! saturate at 255 per channel, so no channel can carry into its
//! neighbour.

use vstd::prelude::*;
use crate::fixed::{SCALE, fdiv, clamp_range};

verus! {

/// Largest intensity magnitude `apply_intensity` accepts; wide enough
/// for any sum `compute_lighting` can produce.
pub const INTENSITY_ARG_LIMIT: i128 = 1_000_000_000_000_000_000_000_000_000_000_000;

/// The red channel of a packed color.
pub open spec fn channel_red(c: int) -> int {
    (c / 0x10000) % 0x100
}

/// The green channel of a packed color.
pub open spec fn channel_green(c: int) -> int {
    (c / 0x100) % 0x100
}

/// The blue channel of a packed color.
pub open spec fn channel_blue(c: int) -> int {
    c % 0x100
}

/// Pack three channel values back into `0x00RRGGBB`.
pub open spec fn pack_rgb(r: int, g: int, b: int) -> int {
    r * 0x10000 + g * 0x100 + b
}

/// One channel scaled by the fixed-point intensity `n`, clamped into
/// `[0, 255]` before it is packed again.
pub open spec fn scale_channel(ch: int, n: int) -> int {
    clamp_range(fdiv(ch * n, SCALE as int), 0, 255)
}

/// `apply_intensity` on mathematical integers.
pub open spec fn apply_intensity_spec(color: int, n: int) -> int {
    pack_rgb(
        scale_channel(channel_red(color), n),
        scale_channel(channel_green(color), n),
        scale_channel(channel_blue(color), n),
    )
}

/// One channel of a saturating channel sum.
pub open spec fn add_channel(x: int, y: int) -> int {
    if x + y > 255 {
        255
    } else {
        x + y
    }
}

/// `add_colors` on mathematical integers.
pub open spec fn add_colors_spec(a: int, b: int) -> int {
    pack_rgb(
        add_channel(channel_red(a), channel_red(b)),
        add_channel(channel_green(a), channel_green(b)),
        add_channel(channel_blue(a), channel_blue(b)),
    )
}

/// Clamp a scaled channel value into `[0, 255]`.
fn clamp_channel(x: i128) -> (r: u32)
    ensures
        r == clamp_range(x as int, 0, 255),
{
    if x < 0 {
        0
    } else if x > 255 {
        255
    } else {
        x as u32
    }
}

/// Scale each 8-bit channel of `color` by the fixed-point intensity `n`
/// (raw, `SCALE` = 1.0), clamping each scaled channel into `[0, 255]`
/// before repacking.  The result never exceeds `0xFFFFFF`.
pub fn apply_intensity(color: u32, n: i128) -> (r: u32)
    requires
        -INTENSITY_ARG_LIMIT <= n <= INTENSITY_ARG_LIMIT,
    ensures
        r == apply_intensity_spec(color as int, n as int),
        r <= 0xFFFFFF,
{
    let red: u32 = (color / 0x10000) % 0x100;
    let green: u32 = (color / 0x100) % 0x100;
    let blue: u32 = color % 0x100;
    proof {
        assert(-256 * INTENSITY_ARG_LIMIT <= red * n <= 256 * INTENSITY_ARG_LIMIT && -256
            * INTENSITY_ARG_LIMIT <= green * n <= 256 * INTENSITY_ARG_LIMIT && -256
            * INTENSITY_ARG_LIMIT <= blue * n <= 256 * INTENSITY_ARG_LIMIT) by (nonlinear_arith)
            requires
                0 <= red < 256,
                0 <= green < 256,
                0 <= blue < 256,
                -INTENSITY_ARG_LIMIT <= n <= INTENSITY_ARG_LIMIT,
        ;
    }
    let sr = clamp_channel(crate::fixed::div_floor(red as i128 * n, SCALE as i128));
    let sg = clamp_channel(crate::fixed::div_floor(green as i128 * n, SCALE as i128));
    let sb = clamp_channel(crate::fixed::div_floor(blue as i128 * n, SCALE as i128));
    sr * 0x10000 + sg * 0x100 + sb
}

/// Add two packed colors channel by channel, saturating each channel at
/// 255 before repacking, so a bright channel never bleeds into its
/// neighbour.  The result never exceeds `0xFFFFFF`.
pub fn add_colors(color_a: u32, color_b: u32) -> (r: u32)
    ensures
        r == add_colors_spec(color_a as int, color_b as int),
        r <= 0xFFFFFF,
{
    let ra: u32 = (color_a / 0x10000) % 0x100;
    let ga: u32 = (color_a / 0x100) % 0x100;
    let ba: u32 = color_a % 0x100;
    let rb: u32 = (color_b / 0x10000) % 0x100;
    let gb: u32 = (color_b / 0x100) % 0x100;
    let bb: u32 = color_b % 0x100;
    let new_r = if ra + rb > 255 { 255 } else { ra + rb };
    let new_g = if ga + gb > 255 { 255 } else { ga + gb };
    let new_b = if ba + bb > 255 { 255 } else { ba + bb };
    new_r * 0x10000 + new_g * 0x100 + new_b
}

}
