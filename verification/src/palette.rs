//! Colours of the rain: a two-stop gradient from the head of a streak to
//! its tail, sampled once per cell of the longest possible trail.

use vstd::prelude::*;

use colorgrad::{Color, Gradient, GradientBuilder, LinearGradient};

verus! {

/// A colour as three 8-bit channels.
#[derive(Clone, Copy, Debug, PartialEq, Eq, Structural)]
pub struct Rgb {
    pub r: u8,
    pub g: u8,
    pub b: u8,
}

/// The colour of a streak's head.
pub open spec fn head_color() -> Rgb {
    Rgb { r: 5, g: 225, b: 19 }
}

/// The colour a streak fades to at its tail.
pub open spec fn tail_color() -> Rgb {
    Rgb { r: 52, g: 61, b: 49 }
}

/// The colour the screen is filled with before any streak is drawn.
pub open spec fn background_color() -> Rgb {
    Rgb { r: 20, g: 20, b: 20 }
}

/// The colours that a linear gradient from `head` to `tail` takes at `count`
/// evenly spaced points.
pub uninterp spec fn gradient_samples(head: Rgb, tail: Rgb, count: u16) -> Seq<Rgb>;

/// The ramp for trails of up to `count` cells: entry `j` colours the cell
/// `j` rows behind the head.
pub open spec fn ramp_colors(count: u16) -> Seq<Rgb> {
    gradient_samples(head_color(), tail_color(), count)
}

/// Samples a gradient with `colorgrad`: `GradientBuilder` builds a
/// `LinearGradient` over the two opaque stops `head` and `tail`, and
/// `Gradient::colors` walks it at `count` evenly spaced positions; each
/// sample is rounded to 8-bit channels by `Color::to_rgba8`.
///
/// Trusted: the result is the named sequence, which depends on the three
/// arguments alone, and it has exactly `count` entries. A builder with two
/// stops always builds. The first sample is taken at the start of the
/// gradient and the last, if there are two or more, at its end, where the
/// gradient returns the stop itself; the way to 8-bit channels and back
/// changes no channel, so the ramp begins with `head` and ends with `tail`.
#[verifier::external_body]
fn sample_gradient(head: Rgb, tail: Rgb, count: u16) -> (ramp: Vec<Rgb>)
    ensures
        ramp@ == gradient_samples(head, tail, count),
        ramp@.len() == count,
        count >= 1 ==> ramp@[0] == head,
        count >= 2 ==> ramp@[count - 1] == tail,
{
    let stops = [
        Color::from_rgba8(head.r, head.g, head.b, u8::MAX),
        Color::from_rgba8(tail.r, tail.g, tail.b, u8::MAX),
    ];
    match GradientBuilder::new().colors(&stops).build::<LinearGradient>() {
        Ok(gradient) => gradient.colors(usize::from(count)).map(|c| c.to_rgba8()).map(
            |[r, g, b, _]| Rgb { r, g, b },
        ).collect(),
        Err(_) => Vec::new(),
    }
}

/// The colour of a streak's head.
pub fn head() -> (color: Rgb)
    ensures
        color == head_color(),
{
    Rgb { r: 5, g: 225, b: 19 }
}

/// The colour of a streak's tail.
pub fn tail() -> (color: Rgb)
    ensures
        color == tail_color(),
{
    Rgb { r: 52, g: 61, b: 49 }
}

/// The background colour.
pub fn background() -> (color: Rgb)
    ensures
        color == background_color(),
{
    Rgb { r: 20, g: 20, b: 20 }
}

/// Builds the colour ramp for trails of up to `count` cells. It begins with
/// the head colour and, if it has two or more entries, ends with the tail
/// colour.
pub fn color_ramp(count: u16) -> (ramp: Vec<Rgb>)
    ensures
        ramp@ == ramp_colors(count),
        ramp@.len() == count,
        count >= 1 ==> ramp@[0] == head_color(),
        count >= 2 ==> ramp@[count - 1] == tail_color(),
{
    sample_gradient(head(), tail(), count)
}

} // verus!
