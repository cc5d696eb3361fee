//! The loop over the samples of a pixel and over the pixels of a row.
//!
//! Rays, sums and gamma are arithmetic and come in as functions. What is
//! fixed here is how often they are asked and in which order, and how the
//! colour of a pixel becomes three bytes.

use vstd::prelude::*;
use crate::vector::Color;

verus! {

/// Whether `total` is a sum that `n` samples can give, with the two
/// functions answering as they may: the sum starts black, and each sample
/// that `sample` hands out is put to it by `accumulate`, one after the
/// other.
pub open spec fn accumulated<S, A>(sample: S, accumulate: A, n: nat, total: Color) -> bool where
    S: Fn() -> Color,
    A: Fn(Color, Color) -> Color,

    decreases n,
{
    if n == 0 {
        total == Color::dark()
    } else {
        exists|before: Color, next: Color|
            #![trigger call_ensures(accumulate, (before, next), total)]
            accumulated(sample, accumulate, (n - 1) as nat, before) && call_ensures(
                sample,
                (),
                next,
            ) && call_ensures(accumulate, (before, next), total)
    }
}

/// The three bytes of a colour, see [`crate::scalar::Scalar::whole_byte`].
pub open spec fn bytes_of(color: Color) -> Seq<u8> {
    seq![
        color.0.x.whole_byte() as u8,
        color.0.y.whole_byte() as u8,
        color.0.z.whole_byte() as u8,
    ]
}

/// The bytes of one pixel.
///
/// `sample` follows one ray through the pixel and gives its colour; it is
/// asked `samples` times. `accumulate` adds a sample to the sum so far,
/// which starts black. `develop` turns the sum and the number of samples
/// into the colour to store: the mean, gamma-corrected and scaled to the
/// range of a byte. That colour is cut off and held to bytes.
pub fn pixel<S, A, D>(samples: u32, sample: &S, accumulate: &A, develop: &D) -> (rgb: [u8; 3]) where
    S: Fn() -> Color,
    A: Fn(Color, Color) -> Color,
    D: Fn(Color, u32) -> Color,

    requires
        call_requires(*sample, ()),
        forall|a: Color, b: Color| call_requires(*accumulate, (a, b)),
        forall|a: Color, n: u32| call_requires(*develop, (a, n)),
    ensures
        exists|total: Color, developed: Color|
            #![trigger call_ensures(*develop, (total, samples), developed)]
            accumulated(*sample, *accumulate, samples as nat, total) && call_ensures(
                *develop,
                (total, samples),
                developed,
            ) && rgb@ == bytes_of(developed),
{
    let mut total = Color::black();
    let mut fired: u32 = 0;
    while fired < samples
        invariant
            fired <= samples,
            call_requires(*sample, ()),
            forall|a: Color, b: Color| call_requires(*accumulate, (a, b)),
            accumulated(*sample, *accumulate, fired as nat, total),
        decreases samples - fired,
    {
        let next = sample();
        let ghost before = total;
        total = accumulate(total, next);
        fired = fired + 1;
        assert(accumulated(*sample, *accumulate, (fired - 1) as nat, before) && call_ensures(
            *sample,
            (),
            next,
        ) && call_ensures(*accumulate, (before, next), total));
    }
    let developed = develop(total, samples);
    let rgb = developed.to_rgb8();
    assert(rgb@ == bytes_of(developed));
    assert(call_ensures(*develop, (total, samples), developed));
    rgb
}

/// Whether the three bytes of column `x` in the row `bytes` are bytes that
/// `pixel` gives for that column of row `y`.
pub open spec fn holds_pixel<P: Fn(u32, u32) -> [u8; 3]>(
    pixel: P,
    bytes: Seq<u8>,
    x: u32,
    y: u32,
) -> bool {
    exists|rgb: [u8; 3]| #[trigger]
        call_ensures(pixel, (x, y), rgb) && bytes.subrange(3 * x, 3 * x + 3) == rgb@
}

/// The bytes of row `y` of a picture `width` pixels wide: the bytes that
/// `pixel` gives for each column, from the left, three for each pixel.
pub fn row<P>(y: u32, width: u32, pixel: &P) -> (r: Vec<u8>) where P: Fn(u32, u32) -> [u8; 3]
    requires
        forall|x: u32| call_requires(*pixel, (x, y)),
    ensures
        r.len() == 3 * width,
        forall|x: u32| x < width ==> #[trigger] holds_pixel(*pixel, r@, x, y),
{
    let mut out: Vec<u8> = Vec::new();
    let mut x: u32 = 0;
    while x < width
        invariant
            x <= width,
            forall|x: u32| call_requires(*pixel, (x, y)),
            out.len() == 3 * x,
            forall|k: u32| k < x ==> #[trigger] holds_pixel(*pixel, out@, k, y),
        decreases width - x,
    {
        let rgb = pixel(x, y);
        let ghost before = out@;
        out.push(rgb[0]);
        out.push(rgb[1]);
        out.push(rgb[2]);
        proof {
            assert(out@.subrange(3 * x, 3 * x + 3) == rgb@);
            assert forall|k: u32| k < x + 1 implies #[trigger] holds_pixel(*pixel, out@, k, y) by {
                if k < x {
                    assert(holds_pixel(*pixel, before, k, y));
                    let old_rgb = choose|rgb: [u8; 3]| #[trigger]
                        call_ensures(*pixel, (k, y), rgb) && before.subrange(3 * k, 3 * k + 3)
                            == rgb@;
                    assert(out@.subrange(3 * k, 3 * k + 3) == before.subrange(3 * k, 3 * k + 3));
                    assert(call_ensures(*pixel, (k, y), old_rgb) && out@.subrange(
                        3 * k,
                        3 * k + 3,
                    ) == old_rgb@);
                } else {
                    assert(call_ensures(*pixel, (k, y), rgb) && out@.subrange(3 * k, 3 * k + 3)
                        == rgb@);
                }
            }
        }
        x = x + 1;
    }
    out
}

} // verus!
