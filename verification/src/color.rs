//! Colours, pixels and the distance between them.

use vstd::prelude::*;

verus! {

/// An opaque colour: three 8-bit channels.
#[derive(Clone, Copy, Debug, PartialEq, Eq, Structural)]
pub struct Color {
    pub r: u8,
    pub g: u8,
    pub b: u8,
}

/// One cell of a raster: a colour and its 8-bit alpha channel.
#[derive(Clone, Copy, Debug, PartialEq, Eq, Structural)]
pub struct Pixel {
    pub color: Color,
    pub alpha: u8,
}

impl Color {
    /// The colour with the given red, green and blue channels.
    pub fn new(r: u8, g: u8, b: u8) -> (out: Color)
        ensures
            out == (Color { r, g, b }),
    {
        Color { r, g, b }
    }
}

impl Pixel {
    /// The pixel with the given red, green, blue and alpha channels.
    pub fn new(r: u8, g: u8, b: u8, a: u8) -> (out: Pixel)
        ensures
            out == (Pixel { color: Color { r, g, b }, alpha: a }),
    {
        Pixel { color: Color { r, g, b }, alpha: a }
    }
}

/// Largest value that `squared_distance` takes: black against white.
pub const MAX_SQUARED_DISTANCE: u32 = 195075;

/// Squared Euclidean distance between two colours in RGB space.
///
/// Only the order of distances matters to a nearest-colour search, so the
/// square root is never taken and the measure stays an integer.
pub open spec fn squared_distance(a: Color, b: Color) -> int {
    (a.r - b.r) * (a.r - b.r) + (a.g - b.g) * (a.g - b.g) + (a.b - b.b) * (a.b - b.b)
}

/// Squared difference of two channel values.
fn channel_gap(a: u8, b: u8) -> (d: u32)
    ensures
        d == (a - b) * (a - b),
        d <= 65025,
{
    let gap: u32 = if a > b {
        (a - b) as u32
    } else {
        (b - a) as u32
    };
    assert(gap * gap == (a - b) * (a - b)) by (nonlinear_arith)
        requires
            gap == a - b || gap == b - a,
    ;
    assert(gap * gap <= 65025) by (nonlinear_arith)
        requires
            gap <= 255,
    ;
    gap * gap
}

/// Squared distance from the colour of pixel `c1` to the colour `c2`.
/// The alpha channel of `c1` plays no part.
pub fn distance(c1: &Pixel, c2: &Color) -> (d: u32)
    ensures
        d == squared_distance(c1.color, *c2),
        d <= MAX_SQUARED_DISTANCE,
{
    let delta_r: u32 = channel_gap(c1.color.r, c2.r);
    let delta_g: u32 = channel_gap(c1.color.g, c2.g);
    let delta_b: u32 = channel_gap(c1.color.b, c2.b);
    delta_r + delta_g + delta_b
}

/// Two colours are at distance zero exactly when they are the same colour,
/// and no distance is negative.
pub proof fn lemma_distance_zero(a: Color, b: Color)
    ensures
        squared_distance(a, b) >= 0,
        squared_distance(a, b) == 0 <==> a == b,
{
    let dr: int = a.r - b.r;
    let dg: int = a.g - b.g;
    let db: int = a.b - b.b;
    assert(dr * dr >= 0 && (dr * dr == 0 <==> dr == 0)) by (nonlinear_arith);
    assert(dg * dg >= 0 && (dg * dg == 0 <==> dg == 0)) by (nonlinear_arith);
    assert(db * db >= 0 && (db * db == 0 <==> db == 0)) by (nonlinear_arith);
}

} // verus!
