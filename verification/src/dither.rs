//! Reducing an image to the few colours of a palette by error diffusion.
//!
//! The pixels are taken row by row, each row from left to right. A pixel
//! becomes the palette's colour that is nearest to it, and what is lost or
//! gained by that is spread over the pixels that are still to come, so that
//! an area keeps its brightness. Distances and errors are reckoned with
//! linear light, not with the values that the image stores.
//!
//! Light is counted in whole numbers from 0 to 65535, and a share of an
//! error is rounded towards zero. However large the image, no gathered
//! error leaves the range that the numbers have room for, so nothing is
//! ever cut off: `lemma_errors_accounted` shows that.

use vstd::prelude::*;
use crate::buffer::{
    lemma_offset_bound, lemma_offset_injective, lemma_offset_split, lemma_position_of_offset, Buffer,
};
use crate::color::Rgba;
use crate::vec2::Vec2;

verus! {

/// Which neighbours get how much of a pixel's error.
#[derive(Clone, Copy, Debug, PartialEq, Eq, Structural)]
pub enum DitherAlgorithm {
    /// Four neighbours, sixteenths.
    FloydSteinberg,
    /// Twelve neighbours in two rows, forty-seconds.
    Stucki,
}

/// Why an image was not dithered.
#[derive(Clone, Copy, Debug, PartialEq, Eq, Structural)]
pub enum DitherError {
    /// There is no algorithm of that name.
    UnknownAlgorithm,
}

/// Red, green and blue in linear light, where 0 is black and `FULL` is the
/// most that a channel can hold. An error is a difference of two such
/// colours.
#[derive(Clone, Copy, Debug, PartialEq, Eq, Structural)]
pub struct Linear {
    pub r: i64,
    pub g: i64,
    pub b: i64,
}

/// The most that a channel holds in linear light.
pub const FULL: i64 = 65535;

/// No pixel's gathered error goes further than this in either direction:
/// two to the power of forty-nine, more than the whole scale for each
/// column and three times the whole scale for each row of the largest
/// image.
pub const ERROR_LIMIT: i64 = 562_949_953_421_312;

/// A neighbour, given by its place relative to the pixel, and its share of
/// the pixel's error in parts of the algorithm's divisor.
#[derive(Clone, Copy, Debug, PartialEq, Eq, Structural)]
pub struct Tap {
    pub dx: i32,
    pub dy: i32,
    pub weight: i32,
}

/// The linear light that `palette` gives for a stored sRGB value, on a
/// scale from 0 to 65535.
pub uninterp spec fn linear_of(value: u8) -> u16;

/// Decodes a stored sRGB value into linear light with `palette`:
/// `Srgb::into_linear`, then `into_format` to sixteen bits.
///
/// The outcome depends on the value alone. Black is 0 and white is 65535:
/// the table that `palette` decodes with starts at 0 and ends at 1.
#[verifier::external_body]
fn to_linear(value: u8) -> (linear: u16)
    ensures
        linear == linear_of(value),
        value == 0 ==> linear == 0,
        value == 255 ==> linear == 65535,
{
    let color: palette::LinSrgb = palette::Srgb::new(value, value, value).into_linear();
    color.into_format::<u16>().red
}

/// A colour's red, green and blue in linear light.
pub open spec fn linear_color(c: Rgba) -> Linear {
    Linear { r: linear_of(c.r) as i64, g: linear_of(c.g) as i64, b: linear_of(c.b) as i64 }
}

/// The palette's colours in linear light.
pub open spec fn linear_palette(palette: Seq<Rgba>) -> Seq<Linear> {
    Seq::new(palette.len(), |i: int| linear_color(palette[i]))
}

/// The square of the distance between two colours.
pub open spec fn dist2(a: Linear, b: Linear) -> int {
    (a.r - b.r) * (a.r - b.r) + (a.g - b.g) * (a.g - b.g) + (a.b - b.b) * (a.b - b.b)
}

/// Among the first `n` colours of the palette the one nearest to `c`, and
/// of several that are equally near the first.
pub open spec fn nearest_upto(palette: Seq<Linear>, c: Linear, n: int) -> int
    decreases n,
{
    if n <= 1 {
        0
    } else {
        let best = nearest_upto(palette, c, n - 1);
        if dist2(palette[n - 1], c) < dist2(palette[best], c) {
            n - 1
        } else {
            best
        }
    }
}

/// The palette's colour nearest to `c`.
pub open spec fn nearest(palette: Seq<Linear>, c: Linear) -> int {
    nearest_upto(palette, c, palette.len() as int)
}

/// No colour of the palette is nearer than the nearest, and none that
/// stands before it is as near.
pub proof fn lemma_nearest(palette: Seq<Linear>, c: Linear, n: int)
    requires
        1 <= n <= palette.len(),
    ensures
        0 <= nearest_upto(palette, c, n) < n,
        forall|j: int|
            0 <= j < n ==> dist2(palette[nearest_upto(palette, c, n)], c) <= dist2(
                #[trigger] palette[j],
                c,
            ),
        forall|j: int|
            0 <= j < nearest_upto(palette, c, n) ==> dist2(
                palette[nearest_upto(palette, c, n)],
                c,
            ) < dist2(#[trigger] palette[j], c),
    decreases n,
{
    if n > 1 {
        lemma_nearest(palette, c, n - 1);
    }
}

/// Division that rounds towards zero.
pub open spec fn trunc_div(p: int, d: int) -> int {
    if p >= 0 {
        p / d
    } else {
        -((-p) / d)
    }
}

/// The gathered error `e` with the share `weight / divisor` of the error
/// `q` added.
pub open spec fn add_error(e: Linear, q: Linear, weight: int, divisor: int) -> Linear {
    Linear {
        r: (e.r + trunc_div(q.r * weight, divisor)) as i64,
        g: (e.g + trunc_div(q.g * weight, divisor)) as i64,
        b: (e.b + trunc_div(q.b * weight, divisor)) as i64,
    }
}

/// Whether the gathered error lies within the limit.
pub open spec fn within_limit(e: Linear) -> bool {
    &&& -ERROR_LIMIT <= e.r <= ERROR_LIMIT
    &&& -ERROR_LIMIT <= e.g <= ERROR_LIMIT
    &&& -ERROR_LIMIT <= e.b <= ERROR_LIMIT
}

/// The gathered errors after the first `n` taps have had their share of
/// the error `q` of the pixel at `(x, y)`. A tap outside of the image gets
/// nothing.
pub open spec fn diffuse(
    err: Seq<Linear>,
    w: int,
    h: int,
    x: int,
    y: int,
    q: Linear,
    taps: Seq<Tap>,
    divisor: int,
    n: int,
) -> Seq<Linear>
    decreases n,
{
    if n <= 0 {
        err
    } else {
        let before = diffuse(err, w, h, x, y, q, taps, divisor, n - 1);
        let tap = taps[n - 1];
        let tx = x + tap.dx;
        let ty = y + tap.dy;
        if 0 <= tx < w && 0 <= ty < h {
            before.update(
                ty * w + tx,
                add_error(before[ty * w + tx], q, tap.weight as int, divisor),
            )
        } else {
            before
        }
    }
}

/// The image and the gathered errors while the pixels are taken one after
/// the other.
pub struct DitherState {
    pub out: Seq<Rgba>,
    pub err: Seq<Linear>,
}

/// The pixel as it is judged: its linear light with the gathered error.
pub open spec fn judged(pixel: Rgba, e: Linear) -> Linear {
    Linear {
        r: (linear_of(pixel.r) + e.r) as i64,
        g: (linear_of(pixel.g) + e.g) as i64,
        b: (linear_of(pixel.b) + e.b) as i64,
    }
}

/// The difference of two colours.
pub open spec fn minus(a: Linear, b: Linear) -> Linear {
    Linear { r: (a.r - b.r) as i64, g: (a.g - b.g) as i64, b: (a.b - b.b) as i64 }
}

/// The colour `chosen` with the alpha of `pixel`.
pub open spec fn with_alpha_of(chosen: Rgba, pixel: Rgba) -> Rgba {
    Rgba { r: chosen.r, g: chosen.g, b: chosen.b, a: pixel.a }
}

/// The state after the pixel with number `k` has been taken: it has become
/// the nearest colour of the palette, its alpha left alone, and the taps
/// have had their shares of the difference.
pub open spec fn dither_step(
    state: DitherState,
    w: int,
    h: int,
    k: int,
    palette: Seq<Rgba>,
    taps: Seq<Tap>,
    divisor: int,
) -> DitherState {
    let pixel = state.out[k];
    let value = judged(pixel, state.err[k]);
    let lin = linear_palette(palette);
    let j = nearest(lin, value);
    DitherState {
        out: state.out.update(k, with_alpha_of(palette[j], pixel)),
        err: diffuse(
            state.err,
            w,
            h,
            k % w,
            k / w,
            minus(value, lin[j]),
            taps,
            divisor,
            taps.len() as int,
        ),
    }
}

/// No error at all.
pub open spec fn no_error() -> Linear {
    Linear { r: 0, g: 0, b: 0 }
}

/// The state after the first `k` pixels have been taken.
pub open spec fn dither_after(
    pixels: Seq<Rgba>,
    w: int,
    h: int,
    palette: Seq<Rgba>,
    taps: Seq<Tap>,
    divisor: int,
    k: int,
) -> DitherState
    decreases k,
{
    if k <= 0 {
        DitherState { out: pixels, err: Seq::new(pixels.len(), |i: int| no_error()) }
    } else {
        dither_step(
            dither_after(pixels, w, h, palette, taps, divisor, k - 1),
            w,
            h,
            k - 1,
            palette,
            taps,
            divisor,
        )
    }
}

/// The neighbours of the Floyd-Steinberg algorithm: 7 to the right, and
/// below 3 to the left, 5 straight down and 1 to the right.
pub open spec fn floyd_steinberg_taps() -> Seq<Tap> {
    seq![
        Tap { dx: 1, dy: 0, weight: 7 },
        Tap { dx: -1i32, dy: 1, weight: 3 },
        Tap { dx: 0, dy: 1, weight: 5 },
        Tap { dx: 1, dy: 1, weight: 1 },
    ]
}

/// The neighbours of the Stucki algorithm, two columns to either side and
/// two rows down.
pub open spec fn stucki_taps() -> Seq<Tap> {
    seq![
        Tap { dx: 1, dy: 0, weight: 8 },
        Tap { dx: 2, dy: 0, weight: 4 },
        Tap { dx: -2i32, dy: 1, weight: 2 },
        Tap { dx: -1i32, dy: 1, weight: 4 },
        Tap { dx: 0, dy: 1, weight: 8 },
        Tap { dx: 1, dy: 1, weight: 4 },
        Tap { dx: 2, dy: 1, weight: 2 },
        Tap { dx: -2i32, dy: 2, weight: 1 },
        Tap { dx: -1i32, dy: 2, weight: 2 },
        Tap { dx: 0, dy: 2, weight: 4 },
        Tap { dx: 1, dy: 2, weight: 2 },
        Tap { dx: 2, dy: 2, weight: 1 },
    ]
}

/// The sum of the weights of the first `n` taps.
pub open spec fn weight_sum(taps: Seq<Tap>, n: int) -> int
    decreases n,
{
    if n <= 0 {
        0
    } else {
        weight_sum(taps, n - 1) + taps[n - 1].weight
    }
}

/// Whether every tap lies after the pixel in the order in which the pixels
/// are taken, no more than two columns and two rows away, and has a
/// weight between 1 and 8.
pub open spec fn taps_ahead(taps: Seq<Tap>) -> bool {
    forall|i: int|
        0 <= i < taps.len() ==> {
            let t = #[trigger] taps[i];
            &&& -2 <= t.dx <= 2
            &&& 0 <= t.dy <= 2
            &&& (t.dy > 0 || t.dx > 0)
            &&& 1 <= t.weight <= 8
        }
}

impl DitherAlgorithm {
    /// The neighbours that get a share of a pixel's error.
    pub open spec fn taps(self) -> Seq<Tap> {
        match self {
            DitherAlgorithm::FloydSteinberg => floyd_steinberg_taps(),
            DitherAlgorithm::Stucki => stucki_taps(),
        }
    }

    /// In how many parts a pixel's error is divided.
    pub open spec fn divisor(self) -> int {
        match self {
            DitherAlgorithm::FloydSteinberg => 16,
            DitherAlgorithm::Stucki => 42,
        }
    }

    /// All of a pixel's error is handed on: the weights add up to the
    /// divisor. And it is handed on to pixels that are still to come.
    pub proof fn lemma_taps(self)
        ensures
            weight_sum(self.taps(), self.taps().len() as int) == self.divisor(),
            taps_ahead(self.taps()),
    {
        reveal_with_fuel(weight_sum, 13);
    }
}

/// How far the pixel with number `t` lies from the first pixel, counted
/// so that every tap leads further away: its column and three times its
/// row.
pub open spec fn reach(w: int, t: int) -> int {
    t % w + 3 * (t / w)
}

/// The number of the pixel from which the tap leads to the pixel with
/// number `t`, if that is a pixel of the image.
pub open spec fn tap_source(tap: Tap, w: int, h: int, t: int) -> Option<int> {
    let sx = t % w - tap.dx;
    let sy = t / w - tap.dy;
    if 0 <= sx < w && 0 <= sy < h {
        Some(sy * w + sx)
    } else {
        None
    }
}

/// The weights of those among the first `m` taps through which the pixel
/// with number `t` has had a share, once the pixels before `k` have
/// handed on their errors and pixel `k` has served its first `n` taps.
pub open spec fn received(taps: Seq<Tap>, w: int, h: int, t: int, k: int, n: int, m: int) -> int
    decreases m,
{
    if m <= 0 {
        0
    } else {
        let got = received(taps, w, h, t, k, n, m - 1);
        match tap_source(taps[m - 1], w, h, t) {
            Some(s) => if s < k || (s == k && m - 1 < n) {
                got + taps[m - 1].weight
            } else {
                got
            },
            None => got,
        }
    }
}

/// Whether one channel of a gathered error is accounted for: it is no
/// more than the part `got / divisor` of `most`.
pub open spec fn channel_within(e: int, got: int, most: int, divisor: int) -> bool {
    -(got * most) <= divisor * e <= got * most
}

/// Whether a gathered error is accounted for by the weights that the
/// pixel has received: each of them brought no more than its part of the
/// whole scale for each step that the pixel lies from the first.
pub open spec fn error_within(e: Linear, got: int, reach: int, divisor: int) -> bool {
    &&& channel_within(e.r as int, got, reach * FULL, divisor)
    &&& channel_within(e.g as int, got, reach * FULL, divisor)
    &&& channel_within(e.b as int, got, reach * FULL, divisor)
}

/// Whether every gathered error is accounted for, once the pixels before
/// `k` have handed on their errors and pixel `k` has served its first `n`
/// taps.
pub open spec fn errors_accounted(
    err: Seq<Linear>,
    taps: Seq<Tap>,
    divisor: int,
    w: int,
    h: int,
    k: int,
    n: int,
) -> bool {
    forall|t: int|
        0 <= t < err.len() ==> error_within(
            #[trigger] err[t],
            received(taps, w, h, t, k, n, taps.len() as int),
            reach(w, t),
            divisor,
        )
}

/// Whether each channel of the error is no more than `most` in either
/// direction.
pub open spec fn error_at_most(q: Linear, most: int) -> bool {
    &&& -most <= q.r <= most
    &&& -most <= q.g <= most
    &&& -most <= q.b <= most
}

/// What a pixel has received is no more than the weights of the taps.
proof fn lemma_received_range(taps: Seq<Tap>, w: int, h: int, t: int, k: int, n: int, m: int)
    requires
        taps_ahead(taps),
        0 <= m <= taps.len(),
    ensures
        0 <= received(taps, w, h, t, k, n, m) <= weight_sum(taps, m),
        weight_sum(taps, m) <= weight_sum(taps, taps.len() as int),
    decreases taps.len() - m,
{
    lemma_received_upto(taps, w, h, t, k, n, m);
    if m < taps.len() {
        lemma_received_range(taps, w, h, t, k, n, m + 1);
        assert(taps[m].weight >= 1);
    }
}

/// What a pixel has received through the first `m` taps is no more than
/// the weights of those taps.
proof fn lemma_received_upto(taps: Seq<Tap>, w: int, h: int, t: int, k: int, n: int, m: int)
    requires
        taps_ahead(taps),
        0 <= m <= taps.len(),
    ensures
        0 <= received(taps, w, h, t, k, n, m) <= weight_sum(taps, m),
    decreases m,
{
    if m > 0 {
        lemma_received_upto(taps, w, h, t, k, n, m - 1);
        assert(taps[m - 1].weight >= 1);
    }
}

/// When pixel `k` serves its tap `n`, the pixel to which that tap leads
/// from `k` receives the tap's weight, and no other pixel receives
/// anything.
proof fn lemma_received_tap(taps: Seq<Tap>, w: int, h: int, t: int, k: int, n: int, m: int)
    requires
        0 <= n < taps.len(),
        0 <= m <= taps.len(),
    ensures
        received(taps, w, h, t, k, n + 1, m) == received(taps, w, h, t, k, n, m) + if m > n
            && tap_source(taps[n], w, h, t) == Some(k) {
            taps[n].weight as int
        } else {
            0
        },
    decreases m,
{
    if m > 0 {
        lemma_received_tap(taps, w, h, t, k, n, m - 1);
    }
}

/// When pixel `k` has served all its taps, the pixels stand as they do
/// before pixel `k + 1` serves its first.
proof fn lemma_received_pixel(taps: Seq<Tap>, w: int, h: int, t: int, k: int, m: int)
    requires
        0 <= m <= taps.len(),
    ensures
        received(taps, w, h, t, k, taps.len() as int, m) == received(taps, w, h, t, k + 1, 0, m),
    decreases m,
{
    if m > 0 {
        lemma_received_pixel(taps, w, h, t, k, m - 1);
    }
}

/// A tap leads to pixel `t` from the pixel at `(x, y)` exactly when `t`
/// is the pixel that lies by the tap's offset from `(x, y)`.
proof fn lemma_tap_source(tap: Tap, w: int, h: int, x: int, y: int, t: int)
    requires
        0 <= x < w <= i32::MAX,
        0 <= y < h <= i32::MAX,
        0 <= t < w * h,
    ensures
        tap_source(tap, w, h, t) == Some(y * w + x) <==> (0 <= x + tap.dx < w && 0 <= y + tap.dy < h
            && t == (y + tap.dy) * w + (x + tap.dx)),
        0 <= t % w < w,
        0 <= t / w < h,
{
    lemma_position_of_offset(w, h, t);
    let sx = t % w - tap.dx;
    let sy = t / w - tap.dy;
    if tap_source(tap, w, h, t) == Some(y * w + x) {
        lemma_offset_injective(w, sx, sy, x, y);
    }
    if 0 <= x + tap.dx < w && 0 <= y + tap.dy < h && t == (y + tap.dy) * w + (x + tap.dx) {
        lemma_offset_injective(w, t % w, t / w, x + tap.dx, y + tap.dy);
    }
}

/// A share of an error that is no more than `most`, added to what is
/// accounted for, is accounted for by the weight that came with it.
proof fn lemma_share(e: int, q: int, weight: int, divisor: int, got: int, most: int)
    requires
        divisor > 0,
        weight >= 0,
        got >= 0,
        most >= 0,
        channel_within(e, got, most, divisor),
        -most <= q <= most,
    ensures
        channel_within(e + trunc_div(q * weight, divisor), got + weight, most, divisor),
{
    let p = q * weight;
    let s = trunc_div(p, divisor);
    assert(-(weight * most) <= p <= weight * most) by (nonlinear_arith)
        requires
            -most <= q <= most,
            weight >= 0,
            p == q * weight,
    ;
    if p >= 0 {
        vstd::arithmetic::div_mod::lemma_fundamental_div_mod(p, divisor);
        vstd::arithmetic::div_mod::lemma_mod_bound(p, divisor);
        assert(0 <= divisor * s <= p) by (nonlinear_arith)
            requires
                p == divisor * (p / divisor) + p % divisor,
                0 <= p % divisor < divisor,
                p >= 0,
                divisor > 0,
                s == p / divisor,
        ;
    } else {
        vstd::arithmetic::div_mod::lemma_fundamental_div_mod(-p, divisor);
        vstd::arithmetic::div_mod::lemma_mod_bound(-p, divisor);
        assert(p <= divisor * s <= 0) by (nonlinear_arith)
            requires
                -p == divisor * ((-p) / divisor) + (-p) % divisor,
                0 <= (-p) % divisor < divisor,
                p < 0,
                divisor > 0,
                s == -((-p) / divisor),
        ;
    }
    assert(divisor * (e + s) == divisor * e + divisor * s) by (nonlinear_arith);
    assert((got + weight) * most == got * most + weight * most) by (nonlinear_arith);
}

/// A channel that is accounted for by no more than the whole of the
/// weights is no more than `most`.
proof fn lemma_channel_at_most(e: int, got: int, most: int, divisor: int)
    requires
        divisor > 0,
        0 <= got <= divisor,
        most >= 0,
        channel_within(e, got, most, divisor),
    ensures
        -most <= e <= most,
{
    assert(-most <= e <= most) by (nonlinear_arith)
        requires
            divisor > 0,
            0 <= got <= divisor,
            most >= 0,
            -(got * most) <= divisor * e <= got * most,
    ;
}

/// Errors that are accounted for lie within the limit, and each within
/// the whole scale for each step that its pixel lies from the first.
pub proof fn lemma_accounted_within(
    err: Seq<Linear>,
    taps: Seq<Tap>,
    divisor: int,
    w: int,
    h: int,
    k: int,
    n: int,
)
    requires
        0 <= w <= i32::MAX,
        0 <= h <= i32::MAX,
        err.len() == w * h,
        taps_ahead(taps),
        divisor > 0,
        weight_sum(taps, taps.len() as int) <= divisor,
        errors_accounted(err, taps, divisor, w, h, k, n),
    ensures
        forall|t: int|
            0 <= t < err.len() ==> error_at_most(#[trigger] err[t], reach(w, t) * FULL)
                && within_limit(err[t]),
{
    assert forall|t: int| 0 <= t < err.len() implies error_at_most(
        #[trigger] err[t],
        reach(w, t) * FULL,
    ) && within_limit(err[t]) by {
        lemma_position_of_offset(w, h, t);
        lemma_received_range(taps, w, h, t, k, n, taps.len() as int);
        let got = received(taps, w, h, t, k, n, taps.len() as int);
        let most = reach(w, t) * FULL;
        lemma_channel_at_most(err[t].r as int, got, most, divisor);
        lemma_channel_at_most(err[t].g as int, got, most, divisor);
        lemma_channel_at_most(err[t].b as int, got, most, divisor);
    }
}

/// While a pixel hands on its error, every gathered error stays
/// accounted for, if the error that is handed on is no more than the
/// whole scale for each step that the pixel lies from the first, and once
/// more.
pub proof fn lemma_diffuse_accounted(
    err: Seq<Linear>,
    w: int,
    h: int,
    x: int,
    y: int,
    q: Linear,
    taps: Seq<Tap>,
    divisor: int,
    n: int,
)
    requires
        0 <= x < w <= i32::MAX,
        0 <= y < h <= i32::MAX,
        err.len() == w * h,
        taps_ahead(taps),
        divisor > 0,
        weight_sum(taps, taps.len() as int) <= divisor,
        0 <= n <= taps.len(),
        errors_accounted(err, taps, divisor, w, h, y * w + x, 0),
        error_at_most(q, (x + 3 * y + 1) * FULL),
    ensures
        diffuse(err, w, h, x, y, q, taps, divisor, n).len() == err.len(),
        errors_accounted(diffuse(err, w, h, x, y, q, taps, divisor, n), taps, divisor, w, h, y * w
            + x, n),
    decreases n,
{
    if n > 0 {
        lemma_diffuse_accounted(err, w, h, x, y, q, taps, divisor, n - 1);
        let k = y * w + x;
        let before = diffuse(err, w, h, x, y, q, taps, divisor, n - 1);
        let after = diffuse(err, w, h, x, y, q, taps, divisor, n);
        let tap = taps[n - 1];
        let tx = x + tap.dx;
        let ty = y + tap.dy;
        let len = taps.len() as int;
        if 0 <= tx < w && 0 <= ty < h {
            lemma_offset_bound(w, h, tx, ty);
            lemma_offset_split(w, tx, ty);
        }
        assert forall|t: int| 0 <= t < after.len() implies error_within(
            #[trigger] after[t],
            received(taps, w, h, t, k, n, len),
            reach(w, t),
            divisor,
        ) by {
            lemma_tap_source(tap, w, h, x, y, t);
            lemma_received_tap(taps, w, h, t, k, n - 1, len);
            let got = received(taps, w, h, t, k, n - 1, len);
            assert(error_within(before[t], got, reach(w, t), divisor));
            if 0 <= tx < w && 0 <= ty < h && t == ty * w + tx {
                let most = reach(w, t) * FULL;
                let e = before[t];
                lemma_received_range(taps, w, h, t, k, n - 1, len);
                lemma_received_range(taps, w, h, t, k, n, len);
                assert(reach(w, t) == tx + 3 * ty);
                assert(reach(w, t) >= x + 3 * y + 1);
                lemma_share(e.r as int, q.r as int, tap.weight as int, divisor, got, most);
                lemma_share(e.g as int, q.g as int, tap.weight as int, divisor, got, most);
                lemma_share(e.b as int, q.b as int, tap.weight as int, divisor, got, most);
                let r = e.r + trunc_div(q.r * tap.weight, divisor);
                let g = e.g + trunc_div(q.g * tap.weight, divisor);
                let b = e.b + trunc_div(q.b * tap.weight, divisor);
                lemma_channel_at_most(r, got + tap.weight, most, divisor);
                lemma_channel_at_most(g, got + tap.weight, most, divisor);
                lemma_channel_at_most(b, got + tap.weight, most, divisor);
                assert(after[t] == add_error(e, q, tap.weight as int, divisor));
            } else {
                assert(after[t] == before[t]);
            }
        }
    }
}

/// Every gathered error is accounted for at every time: before a pixel is
/// taken it has had shares through some of the taps, each no more than
/// that tap's part of the whole scale for each step that the pixel lies
/// from the first. So no gathered error goes beyond the limit, and the
/// sums that make it up are the sums of whole numbers.
pub proof fn lemma_errors_accounted(
    pixels: Seq<Rgba>,
    w: int,
    h: int,
    palette: Seq<Rgba>,
    taps: Seq<Tap>,
    divisor: int,
    k: int,
)
    requires
        0 <= w <= i32::MAX,
        0 <= h <= i32::MAX,
        pixels.len() == w * h,
        palette.len() >= 1,
        taps_ahead(taps),
        divisor > 0,
        weight_sum(taps, taps.len() as int) <= divisor,
        0 <= k <= w * h,
    ensures
        dither_after(pixels, w, h, palette, taps, divisor, k).out.len() == w * h,
        dither_after(pixels, w, h, palette, taps, divisor, k).err.len() == w * h,
        errors_accounted(
            dither_after(pixels, w, h, palette, taps, divisor, k).err,
            taps,
            divisor,
            w,
            h,
            k,
            0,
        ),
    decreases k,
{
    let len = taps.len() as int;
    if k <= 0 {
        let err = dither_after(pixels, w, h, palette, taps, divisor, k).err;
        assert forall|t: int| 0 <= t < err.len() implies error_within(
            #[trigger] err[t],
            received(taps, w, h, t, k, 0, len),
            reach(w, t),
            divisor,
        ) by {
            lemma_received_range(taps, w, h, t, k, 0, len);
            lemma_position_of_offset(w, h, t);
            let got = received(taps, w, h, t, k, 0, len);
            let most = reach(w, t) * FULL;
            assert(0 <= got * most) by (nonlinear_arith)
                requires
                    0 <= got,
                    0 <= most,
            ;
            assert(err[t] == no_error());
            assert(divisor * 0 == 0);
        }
    } else {
        lemma_errors_accounted(pixels, w, h, palette, taps, divisor, k - 1);
        let before = dither_after(pixels, w, h, palette, taps, divisor, k - 1);
        let after = dither_after(pixels, w, h, palette, taps, divisor, k);
        lemma_position_of_offset(w, h, k - 1);
        let x = (k - 1) % w;
        let y = (k - 1) / w;
        assert(y * w + x == k - 1);
        lemma_accounted_within(before.err, taps, divisor, w, h, k - 1, 0);
        let pixel = before.out[k - 1];
        let e = before.err[k - 1];
        assert(error_at_most(e, reach(w, k - 1) * FULL));
        let value = judged(pixel, e);
        let lin = linear_palette(palette);
        lemma_nearest(lin, value, lin.len() as int);
        let j = nearest(lin, value);
        let q = minus(value, lin[j]);
        assert(lin[j] == linear_color(palette[j]));
        assert(error_at_most(q, (x + 3 * y + 1) * FULL));
        lemma_diffuse_accounted(before.err, w, h, x, y, q, taps, divisor, len);
        assert(after.err == diffuse(before.err, w, h, x, y, q, taps, divisor, len));
        assert forall|t: int| 0 <= t < after.err.len() implies error_within(
            #[trigger] after.err[t],
            received(taps, w, h, t, k, 0, len),
            reach(w, t),
            divisor,
        ) by {
            lemma_received_pixel(taps, w, h, t, k - 1, len);
        }
    }
}


/// What dithering makes of the pixels of a `w` by `h` image. Without a
/// palette the image stays as it is.
pub open spec fn dithered(
    pixels: Seq<Rgba>,
    w: int,
    h: int,
    palette: Seq<Rgba>,
    algorithm: DitherAlgorithm,
) -> Seq<Rgba> {
    if palette.len() == 0 {
        pixels
    } else {
        dither_after(
            pixels,
            w,
            h,
            palette,
            algorithm.taps(),
            algorithm.divisor(),
            pixels.len() as int,
        ).out
    }
}

/// Dithering is a function of the image, the palette and the algorithm:
/// the same three give the same pixels, byte for byte, every time.
pub proof fn lemma_dither_deterministic(
    a: Buffer<Rgba>,
    b: Buffer<Rgba>,
    palette_a: Seq<Rgba>,
    palette_b: Seq<Rgba>,
    algorithm: DitherAlgorithm,
)
    requires
        a.spec_size() == b.spec_size(),
        a.pixels() == b.pixels(),
        palette_a == palette_b,
    ensures
        dithered(
            a.pixels(),
            a.spec_size().x as int,
            a.spec_size().y as int,
            palette_a,
            algorithm,
        ) == dithered(
            b.pixels(),
            b.spec_size().x as int,
            b.spec_size().y as int,
            palette_b,
            algorithm,
        ),
{
}

/// Whether the colour's red, green and blue all are `level`.
pub open spec fn is_grey(c: Rgba, level: u8) -> bool {
    c.r == level && c.g == level && c.b == level
}

/// Whether the palette is black and white, in this order.
pub open spec fn is_black_and_white(palette: Seq<Rgba>) -> bool {
    palette.len() == 2 && is_grey(palette[0], 0) && is_grey(palette[1], 255)
}

/// Whether every pixel is black, or every pixel is white.
pub open spec fn is_uniform(pixels: Seq<Rgba>, level: u8) -> bool {
    (level == 0 || level == 255) && forall|i: int|
        0 <= i < pixels.len() ==> is_grey(#[trigger] pixels[i], level)
}

/// Whether every pixel is black or white.
pub open spec fn is_two_tone(pixels: Seq<Rgba>) -> bool {
    forall|i: int|
        0 <= i < pixels.len() ==> is_grey(#[trigger] pixels[i], 0) || is_grey(pixels[i], 255)
}

/// Shares of no error change nothing.
proof fn lemma_diffuse_nothing(
    err: Seq<Linear>,
    w: int,
    h: int,
    x: int,
    y: int,
    taps: Seq<Tap>,
    divisor: int,
    n: int,
)
    requires
        0 <= x < w,
        0 <= y < h,
        err.len() == w * h,
        divisor > 0,
        0 <= n <= taps.len(),
        forall|i: int| 0 <= i < err.len() ==> #[trigger] err[i] == no_error(),
    ensures
        diffuse(err, w, h, x, y, no_error(), taps, divisor, n) == err,
    decreases n,
{
    if n > 0 {
        lemma_diffuse_nothing(err, w, h, x, y, taps, divisor, n - 1);
        let tap = taps[n - 1];
        let tx = x + tap.dx;
        let ty = y + tap.dy;
        if 0 <= tx < w && 0 <= ty < h {
            lemma_offset_bound(w, h, tx, ty);
            assert(0int * (tap.weight as int) == 0);
            assert(trunc_div(0, divisor) == 0);
            assert(add_error(no_error(), no_error(), tap.weight as int, divisor) == no_error());
            assert(err.update(ty * w + tx, no_error()) =~= err);
        }
    }
}

/// Where black decodes to no light and white to full light, dithering an
/// image of black and white pixels to black and white leaves every pixel
/// as it is, and no pixel hands on any error. An image that is all black
/// or all white is such an image.
pub proof fn lemma_two_tone_image_unchanged(
    pixels: Seq<Rgba>,
    w: int,
    h: int,
    palette: Seq<Rgba>,
    algorithm: DitherAlgorithm,
    k: int,
)
    requires
        linear_of(0) == 0,
        linear_of(255) == 65535,
        0 <= w,
        0 <= h,
        pixels.len() == w * h,
        is_black_and_white(palette),
        is_two_tone(pixels),
        0 <= k <= pixels.len(),
    ensures
        dither_after(pixels, w, h, palette, algorithm.taps(), algorithm.divisor(), k).out
            == pixels,
        dither_after(pixels, w, h, palette, algorithm.taps(), algorithm.divisor(), k).err
            == Seq::new(pixels.len(), |i: int| no_error()),
    decreases k,
{
    if k > 0 {
        lemma_two_tone_image_unchanged(pixels, w, h, palette, algorithm, k - 1);
        let taps = algorithm.taps();
        let divisor = algorithm.divisor();
        let before = dither_after(pixels, w, h, palette, taps, divisor, k - 1);
        let pixel = before.out[k - 1];
        assert(is_grey(pixels[k - 1], 0) || is_grey(pixels[k - 1], 255));
        let value = judged(pixel, before.err[k - 1]);
        let lin = linear_palette(palette);
        assert(lin[0] == (Linear { r: 0, g: 0, b: 0 }));
        assert(lin[1] == (Linear { r: 65535, g: 65535, b: 65535 }));
        reveal_with_fuel(nearest_upto, 3);
        let j = nearest(lin, value);
        assert(65535int * 65535int == 4294836225int) by (nonlinear_arith);
        assert((-65535int) * (-65535int) == 4294836225int) by (nonlinear_arith);
        assert(0int * 0int == 0int);
        if is_grey(pixels[k - 1], 0) {
            assert(value == (Linear { r: 0, g: 0, b: 0 }));
            assert(dist2(lin[0], value) == 0);
            assert(dist2(lin[1], value) == 3 * 4294836225int);
            assert(j == 0);
        } else {
            assert(value == (Linear { r: 65535, g: 65535, b: 65535 }));
            assert(dist2(lin[1], value) == 0);
            assert(dist2(lin[0], value) == 3 * 4294836225int);
            assert(j == 1);
        }
        assert(minus(value, lin[j]) == no_error());
        assert(with_alpha_of(palette[j], pixel) == pixel);
        assert(before.out.update(k - 1, pixel) =~= before.out);
        lemma_position_of_offset(w, h, k - 1);
        lemma_diffuse_nothing(
            before.err,
            w,
            h,
            (k - 1) % w,
            (k - 1) / w,
            taps,
            divisor,
            taps.len() as int,
        );
    }
}

/// A colour's red, green and blue in linear light.
fn linear_entry(c: Rgba) -> (l: Linear)
    ensures
        l == linear_color(c),
        0 <= l.r <= FULL,
        0 <= l.g <= FULL,
        0 <= l.b <= FULL,
        is_grey(c, 0) ==> linear_of(0) == 0 && l == (Linear { r: 0, g: 0, b: 0 }),
        is_grey(c, 255) ==> linear_of(255) == 65535 && l == (Linear {
            r: 65535,
            g: 65535,
            b: 65535,
        }),
{
    Linear { r: to_linear(c.r) as i64, g: to_linear(c.g) as i64, b: to_linear(c.b) as i64 }
}

/// A value that a pixel can have when it is judged: its own light with a
/// gathered error.
pub open spec fn judgeable(c: Linear) -> bool {
    &&& -ERROR_LIMIT <= c.r <= FULL + ERROR_LIMIT
    &&& -ERROR_LIMIT <= c.g <= FULL + ERROR_LIMIT
    &&& -ERROR_LIMIT <= c.b <= FULL + ERROR_LIMIT
}

/// Whether the colour lies between black and full light.
pub open spec fn is_light(c: Linear) -> bool {
    &&& 0 <= c.r <= FULL
    &&& 0 <= c.g <= FULL
    &&& 0 <= c.b <= FULL
}

fn distance2(a: Linear, c: Linear) -> (d: i128)
    requires
        is_light(a),
        judgeable(c),
    ensures
        d == dist2(a, c),
{
    let dr: i128 = a.r as i128 - c.r as i128;
    let dg: i128 = a.g as i128 - c.g as i128;
    let db: i128 = a.b as i128 - c.b as i128;
    assert(0 <= dr * dr <= 0x8_0000_0000_0000 * 0x8_0000_0000_0000) by (nonlinear_arith)
        requires
            -0x8_0000_0000_0000 <= dr <= 0x8_0000_0000_0000,
    ;
    assert(0 <= dg * dg <= 0x8_0000_0000_0000 * 0x8_0000_0000_0000) by (nonlinear_arith)
        requires
            -0x8_0000_0000_0000 <= dg <= 0x8_0000_0000_0000,
    ;
    assert(0 <= db * db <= 0x8_0000_0000_0000 * 0x8_0000_0000_0000) by (nonlinear_arith)
        requires
            -0x8_0000_0000_0000 <= db <= 0x8_0000_0000_0000,
    ;
    dr * dr + dg * dg + db * db
}

/// The number of the palette's colour nearest to `c`.
fn nearest_color(palette: &Vec<Linear>, c: Linear) -> (j: usize)
    requires
        palette@.len() >= 1,
        forall|i: int| 0 <= i < palette@.len() ==> is_light(#[trigger] palette@[i]),
        judgeable(c),
    ensures
        j == nearest(palette@, c),
        j < palette@.len(),
{
    let mut best: usize = 0;
    let mut best_distance: i128 = distance2(palette[0], c);
    let mut n: usize = 1;
    while n < palette.len()
        invariant
            1 <= n <= palette@.len(),
            forall|i: int| 0 <= i < palette@.len() ==> is_light(#[trigger] palette@[i]),
            judgeable(c),
            best == nearest_upto(palette@, c, n as int),
            best < n,
            best_distance == dist2(palette@[best as int], c),
        decreases palette@.len() - n,
    {
        let distance = distance2(palette[n], c);
        if distance < best_distance {
            best = n;
            best_distance = distance;
        }
        n = n + 1;
    }
    best
}

/// `p / d`, rounded towards zero.
fn divide(p: i64, d: i64) -> (r: i64)
    requires
        d > 0,
        p > i64::MIN,
    ensures
        r == trunc_div(p as int, d as int),
        p >= 0 ==> 0 <= r <= p,
        p < 0 ==> p <= r <= 0,
{
    if p >= 0 {
        let r = p / d;
        assert(0 <= r <= p) by (nonlinear_arith)
            requires
                r == p / d,
                p >= 0,
                d > 0,
        ;
        r
    } else {
        let m = -p;
        let r = m / d;
        assert(0 <= r <= m) by (nonlinear_arith)
            requires
                r == m / d,
                m >= 0,
                d > 0,
        ;
        -r
    }
}

/// One channel of a gathered error with a share of an error added.
fn add_share(e: i64, q: i64, weight: i32, divisor: i32) -> (r: i64)
    requires
        -ERROR_LIMIT <= e <= ERROR_LIMIT,
        -(FULL + ERROR_LIMIT) <= q <= FULL + ERROR_LIMIT,
        1 <= weight <= 8,
        divisor > 0,
    ensures
        r == e + trunc_div(q * weight, divisor as int),
{
    assert(-0x20_0000_0000_0000 <= q * weight <= 0x20_0000_0000_0000) by (nonlinear_arith)
        requires
            -0x4_0000_0000_0000 <= q <= 0x4_0000_0000_0000,
            1 <= weight <= 8,
    ;
    let product: i64 = q * weight as i64;
    let share = divide(product, divisor as i64);
    e + share
}

/// Hands the taps their shares of the error `q` of the pixel at `(x, y)`.
fn spread(
    err: &mut Vec<Linear>,
    w: i32,
    h: i32,
    x: i32,
    y: i32,
    q: Linear,
    taps: &Vec<Tap>,
    divisor: i32,
)
    requires
        0 <= x < w,
        0 <= y < h,
        old(err)@.len() == w * h,
        taps_ahead(taps@),
        divisor > 0,
        weight_sum(taps@, taps@.len() as int) <= divisor,
        errors_accounted(old(err)@, taps@, divisor as int, w as int, h as int, y * w + x, 0),
        error_at_most(q, (x + 3 * y + 1) * FULL),
    ensures
        final(err)@ == diffuse(
            old(err)@,
            w as int,
            h as int,
            x as int,
            y as int,
            q,
            taps@,
            divisor as int,
            taps@.len() as int,
        ),
        final(err)@.len() == old(err)@.len(),
{
    let mut n: usize = 0;
    while n < taps.len()
        invariant
            n <= taps@.len(),
            0 <= x < w,
            0 <= y < h,
            err@.len() == w * h,
            old(err)@.len() == w * h,
            taps_ahead(taps@),
            divisor > 0,
            weight_sum(taps@, taps@.len() as int) <= divisor,
            errors_accounted(old(err)@, taps@, divisor as int, w as int, h as int, y * w + x, 0),
            error_at_most(q, (x + 3 * y + 1) * FULL),
            err@ == diffuse(
                old(err)@,
                w as int,
                h as int,
                x as int,
                y as int,
                q,
                taps@,
                divisor as int,
                n as int,
            ),
        decreases taps@.len() - n,
    {
        let tap = taps[n];
        assert(-2 <= tap.dx <= 2 && 0 <= tap.dy <= 2 && 1 <= tap.weight <= 8);
        let tx: i64 = x as i64 + tap.dx as i64;
        let ty: i64 = y as i64 + tap.dy as i64;
        if 0 <= tx && tx < w as i64 && 0 <= ty && ty < h as i64 {
            proof {
                lemma_offset_bound(w as int, h as int, tx as int, ty as int);
                lemma_diffuse_accounted(
                    old(err)@,
                    w as int,
                    h as int,
                    x as int,
                    y as int,
                    q,
                    taps@,
                    divisor as int,
                    n as int,
                );
                lemma_accounted_within(
                    err@,
                    taps@,
                    divisor as int,
                    w as int,
                    h as int,
                    y * w + x,
                    n as int,
                );
            }
            assert(0 <= ty * w) by (nonlinear_arith)
                requires
                    0 <= ty,
                    0 <= w,
            ;
            assert(err.len() == w * h);
            let at: usize = (ty as usize) * (w as usize) + (tx as usize);
            let e = err[at];
            assert(within_limit(e));
            let sum = Linear {
                r: add_share(e.r, q.r, tap.weight, divisor),
                g: add_share(e.g, q.g, tap.weight, divisor),
                b: add_share(e.b, q.b, tap.weight, divisor),
            };
            err.set(at, sum);
        }
        n = n + 1;
    }
}

impl DitherAlgorithm {
    /// The neighbours that get a share of a pixel's error.
    pub fn tap_list(self) -> (taps: Vec<Tap>)
        ensures
            taps@ == self.taps(),
    {
        let mut taps: Vec<Tap> = Vec::new();
        match self {
            DitherAlgorithm::FloydSteinberg => {
                taps.push(Tap { dx: 1, dy: 0, weight: 7 });
                taps.push(Tap { dx: -1, dy: 1, weight: 3 });
                taps.push(Tap { dx: 0, dy: 1, weight: 5 });
                taps.push(Tap { dx: 1, dy: 1, weight: 1 });
                assert(taps@ =~= floyd_steinberg_taps());
            },
            DitherAlgorithm::Stucki => {
                taps.push(Tap { dx: 1, dy: 0, weight: 8 });
                taps.push(Tap { dx: 2, dy: 0, weight: 4 });
                taps.push(Tap { dx: -2, dy: 1, weight: 2 });
                taps.push(Tap { dx: -1, dy: 1, weight: 4 });
                taps.push(Tap { dx: 0, dy: 1, weight: 8 });
                taps.push(Tap { dx: 1, dy: 1, weight: 4 });
                taps.push(Tap { dx: 2, dy: 1, weight: 2 });
                taps.push(Tap { dx: -2, dy: 2, weight: 1 });
                taps.push(Tap { dx: -1, dy: 2, weight: 2 });
                taps.push(Tap { dx: 0, dy: 2, weight: 4 });
                taps.push(Tap { dx: 1, dy: 2, weight: 2 });
                taps.push(Tap { dx: 2, dy: 2, weight: 1 });
                assert(taps@ =~= stucki_taps());
            },
        }
        taps
    }

    /// In how many parts a pixel's error is divided.
    pub fn tap_divisor(self) -> (divisor: i32)
        ensures
            divisor == self.divisor(),
    {
        match self {
            DitherAlgorithm::FloydSteinberg => 16,
            DitherAlgorithm::Stucki => 42,
        }
    }

    /// The algorithm with the given name: `floyd-steinberg` or `stucki`.
    pub fn from_name(name: &str) -> (algorithm: Option<DitherAlgorithm>)
        ensures
            algorithm == algorithm_named(name@),
    {
        let name = name.to_owned();
        if name == "floyd-steinberg".to_owned() {
            Some(DitherAlgorithm::FloydSteinberg)
        } else if name == "stucki".to_owned() {
            Some(DitherAlgorithm::Stucki)
        } else {
            None
        }
    }

    /// Reduces the image to the colours of the palette. The alpha of every
    /// pixel stays as it is. Without a palette the image stays as it is.
    ///
    /// An image of black and white pixels, and so one that is all black or
    /// all white, stays as it is when it is dithered to black and white.
    pub fn dither(self, image: Buffer<Rgba>, palette: &Vec<Rgba>) -> (out: Buffer<Rgba>)
        ensures
            out.spec_size() == image.spec_size(),
            out.pixels() == dithered(
                image.pixels(),
                image.spec_size().x as int,
                image.spec_size().y as int,
                palette@,
                self,
            ),
            is_black_and_white(palette@) && is_two_tone(image.pixels()) ==> out.pixels()
                == image.pixels(),
            is_black_and_white(palette@) && (is_uniform(image.pixels(), 0) || is_uniform(
                image.pixels(),
                255,
            )) ==> out.pixels() == image.pixels(),
    {
        let mut image = image;
        if palette.len() == 0 {
            return image;
        }
        proof {
            use_type_invariant(&image);
            self.lemma_taps();
        }
        let ghost input = image;
        let size = image.size();
        let w = size.x;
        let h = size.y;
        let taps = self.tap_list();
        let divisor = self.tap_divisor();

        let mut lin: Vec<Linear> = Vec::new();
        let mut n: usize = 0;
        while n < palette.len()
            invariant
                n <= palette@.len(),
                lin@.len() == n,
                forall|i: int| 0 <= i < n ==> #[trigger] lin@[i] == linear_color(palette@[i]),
                forall|i: int| 0 <= i < n ==> is_light(#[trigger] lin@[i]),
                forall|i: int|
                    0 <= i < n && is_grey(#[trigger] palette@[i], 0) ==> linear_of(0) == 0,
                forall|i: int|
                    0 <= i < n && is_grey(#[trigger] palette@[i], 255) ==> linear_of(255) == 65535,
            decreases palette@.len() - n,
        {
            lin.push(linear_entry(palette[n]));
            n = n + 1;
        }
        assert(lin@ =~= linear_palette(palette@));
        proof {
            if is_black_and_white(palette@) {
                assert(is_grey(palette@[0], 0));
                assert(is_grey(palette@[1], 255));
                if is_two_tone(input.pixels()) {
                    lemma_two_tone_image_unchanged(
                        input.pixels(),
                        w as int,
                        h as int,
                        palette@,
                        self,
                        input.pixels().len() as int,
                    );
                }
            }
        }

        let mut err: Vec<Linear> = Vec::new();
        let count = image.pixel_count();
        let mut k: usize = 0;
        while k < count
            invariant
                k <= count,
                err@ == Seq::new(k as nat, |i: int| no_error()),
            decreases count - k,
        {
            err.push(Linear { r: 0, g: 0, b: 0 });
            k = k + 1;
        }

        let mut y: i32 = 0;
        while y < h
            invariant
                0 <= y <= h,
                0 <= w,
                image.spec_size() == size,
                size.x == w,
                size.y == h,
                input.spec_size() == size,
                input.pixels().len() == w * h,
                err@.len() == w * h,
                lin@ == linear_palette(palette@),
                palette@.len() >= 1,
                forall|i: int| 0 <= i < lin@.len() ==> is_light(#[trigger] lin@[i]),
                taps@ == self.taps(),
                taps_ahead(taps@),
                weight_sum(taps@, taps@.len() as int) == divisor,
                divisor == self.divisor(),
                (DitherState { out: image.pixels(), err: err@ }) == dither_after(
                    input.pixels(),
                    w as int,
                    h as int,
                    palette@,
                    taps@,
                    divisor as int,
                    y * w,
                ),
            decreases h - y,
        {
            let mut x: i32 = 0;
            assert(y * w + 0 == y * w);
            while x < w
                invariant
                    0 <= y < h,
                    0 <= x <= w,
                    image.spec_size() == size,
                    size.x == w,
                    size.y == h,
                    input.spec_size() == size,
                    input.pixels().len() == w * h,
                    err@.len() == w * h,
                    lin@ == linear_palette(palette@),
                    palette@.len() >= 1,
                    forall|i: int| 0 <= i < lin@.len() ==> is_light(#[trigger] lin@[i]),
                    taps@ == self.taps(),
                    taps_ahead(taps@),
                    weight_sum(taps@, taps@.len() as int) == divisor,
                    divisor == self.divisor(),
                    (DitherState { out: image.pixels(), err: err@ }) == dither_after(
                        input.pixels(),
                        w as int,
                        h as int,
                        palette@,
                        taps@,
                        divisor as int,
                        y * w + x,
                    ),
                decreases w - x,
            {
                let pos = Vec2::new(x, y);
                proof {
                    use_type_invariant(&image);
                    lemma_offset_bound(w as int, h as int, x as int, y as int);
                    lemma_offset_split(w as int, x as int, y as int);
                }
                let ghost k = y * w + x;
                let ghost before = DitherState { out: image.pixels(), err: err@ };
                proof {
                    lemma_errors_accounted(
                        input.pixels(),
                        w as int,
                        h as int,
                        palette@,
                        taps@,
                        divisor as int,
                        k,
                    );
                    lemma_accounted_within(
                        err@,
                        taps@,
                        divisor as int,
                        w as int,
                        h as int,
                        k,
                        0,
                    );
                    assert(reach(w as int, k) == x + 3 * y);
                    assert(error_at_most(err@[k], (x + 3 * y) * FULL));
                    assert((x + 3 * y) * FULL <= ERROR_LIMIT);
                }
                let at = match image.index(pos) {
                    Some(at) => at,
                    None => 0,
                };
                let pixel = match image.at(pos) {
                    Some(pixel) => *pixel,
                    None => Rgba { r: 0, g: 0, b: 0, a: 0 },
                };
                let e = err[at];
                let own = linear_entry(pixel);
                let value = Linear { r: own.r + e.r, g: own.g + e.g, b: own.b + e.b };
                assert(value == judged(pixel, e));
                let j = nearest_color(&lin, value);
                let chosen = palette[j];
                let light = lin[j];
                image.set(pos, Rgba { r: chosen.r, g: chosen.g, b: chosen.b, a: pixel.a });
                let q = Linear { r: value.r - light.r, g: value.g - light.g, b: value.b - light.b };
                assert(q == minus(value, light));
                spread(&mut err, w, h, x, y, q, &taps, divisor);
                proof {
                    let after = DitherState { out: image.pixels(), err: err@ };
                    assert(after.out == before.out.update(k, with_alpha_of(palette@[j as int], pixel)));
                    assert(after == dither_step(
                        before,
                        w as int,
                        h as int,
                        k,
                        palette@,
                        taps@,
                        divisor as int,
                    ));
                    assert(y * w + (x + 1) == k + 1);
                }
                x = x + 1;
            }
            assert(y * w + w == (y + 1) * w) by (nonlinear_arith);
            y = y + 1;
        }
        proof {
            assert(h * w == w * h) by (nonlinear_arith);
            use_type_invariant(&image);
        }
        image
    }
}

/// The algorithm that a name stands for.
pub open spec fn algorithm_named(name: Seq<char>) -> Option<DitherAlgorithm> {
    if name == "floyd-steinberg"@ {
        Some(DitherAlgorithm::FloydSteinberg)
    } else if name == "stucki"@ {
        Some(DitherAlgorithm::Stucki)
    } else {
        None
    }
}

/// Dithers an image to black and white with the algorithm of the given
/// name. An image of black and white pixels, and so one that is all black
/// or all white, stays as it is.
pub fn dither(image: Buffer<Rgba>, algorithm: &str) -> (r: Result<Buffer<Rgba>, DitherError>)
    ensures
        match algorithm_named(algorithm@) {
            None => r == Err::<Buffer<Rgba>, DitherError>(DitherError::UnknownAlgorithm),
            Some(a) => r.is_ok() && r.unwrap().spec_size() == image.spec_size()
                && r.unwrap().pixels() == dithered(
                image.pixels(),
                image.spec_size().x as int,
                image.spec_size().y as int,
                seq![
                    Rgba { r: 0, g: 0, b: 0, a: 255 },
                    Rgba { r: 255, g: 255, b: 255, a: 255 },
                ],
                a,
            ) && (is_two_tone(image.pixels()) ==> r.unwrap().pixels() == image.pixels()) && (
            is_uniform(image.pixels(), 0) || is_uniform(image.pixels(), 255) ==> r.unwrap().pixels()
                == image.pixels()),
        },
{
    match DitherAlgorithm::from_name(algorithm) {
        None => Err(DitherError::UnknownAlgorithm),
        Some(a) => {
            let mut palette: Vec<Rgba> = Vec::new();
            palette.push(Rgba { r: 0, g: 0, b: 0, a: 255 });
            palette.push(Rgba { r: 255, g: 255, b: 255, a: 255 });
            assert(palette@ =~= seq![
                Rgba { r: 0, g: 0, b: 0, a: 255 },
                Rgba { r: 255, g: 255, b: 255, a: 255 },
            ]);
            Ok(a.dither(image, &palette))
        },
    }
}

} // verus!
