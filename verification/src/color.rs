//! Colours with eight bits for each of red, green, blue and alpha.

use vstd::prelude::*;

verus! {

/// A colour in sRGB with straight (not premultiplied) alpha.
#[derive(Clone, Copy, Debug, PartialEq, Eq, Structural)]
pub struct Rgba {
    pub r: u8,
    pub g: u8,
    pub b: u8,
    pub a: u8,
}

impl Rgba {
    pub fn new(r: u8, g: u8, b: u8, a: u8) -> (c: Rgba)
        ensures
            c == (Rgba { r, g, b, a }),
    {
        Rgba { r, g, b, a }
    }

    /// Whether the colour lets nothing of what lies below shine through.
    pub open spec fn is_opaque(self) -> bool {
        self.a == 255
    }
}

/// Black with no alpha at all.
pub fn transparent() -> (c: Rgba)
    ensures
        c == (Rgba { r: 0, g: 0, b: 0, a: 0 }),
{
    Rgba { r: 0, g: 0, b: 0, a: 0 }
}

/// Opaque black.
pub fn black() -> (c: Rgba)
    ensures
        c == (Rgba { r: 0, g: 0, b: 0, a: 255 }),
{
    Rgba { r: 0, g: 0, b: 0, a: 255 }
}

/// Opaque white.
pub fn white() -> (c: Rgba)
    ensures
        c == (Rgba { r: 255, g: 255, b: 255, a: 255 }),
{
    Rgba { r: 255, g: 255, b: 255, a: 255 }
}

/// What `palette` computes when it places `top` over `below`: the
/// Porter-Duff "over" operator on the two colours, worked out in
/// floating point and rounded back to eight bits a channel.
pub uninterp spec fn srgba_over(top: Rgba, below: Rgba) -> Rgba;

/// What comes of `top` laid over `below`. An opaque colour covers what is
/// below it; for any other colour it is what `palette` computes.
pub open spec fn laid_over(top: Rgba, below: Rgba) -> Rgba {
    if top.is_opaque() {
        top
    } else {
        srgba_over(top, below)
    }
}

/// Places `top` over `below` with `palette::blend::Compose::over`.
///
/// Both colours are handed to `palette` as `Srgba` and the outcome is taken
/// back as eight-bit channels. The outcome depends on the two colours
/// alone. Where `top` is opaque it is `top`: with an alpha of one the
/// operator keeps the colour of `top`, nothing of `below` is added, and the
/// way to eight bits and back changes no channel.
#[verifier::external_body]
fn blend_over(top: Rgba, below: Rgba) -> (out: Rgba)
    ensures
        out == srgba_over(top, below),
        top.a == 255 ==> out == top,
{
    let top: palette::Srgba = palette::Srgba::new(top.r, top.g, top.b, top.a).into_format();
    let below: palette::Srgba =
        palette::Srgba::new(below.r, below.g, below.b, below.a).into_format();
    let out = palette::blend::Compose::over(top, below).into_format::<u8, u8>();
    Rgba { r: out.red, g: out.green, b: out.blue, a: out.alpha }
}

/// Lays `top` over `below`.
pub fn blend(top: Rgba, below: Rgba) -> (out: Rgba)
    ensures
        out == laid_over(top, below),
{
    blend_over(top, below)
}

} // verus!
