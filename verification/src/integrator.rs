//! The recursion that turns a ray into a colour.

use vstd::prelude::*;
use crate::interval::Interval;
use crate::material::ScatterResult;
use crate::ray::{HitRecord, Ray};
use crate::vector::Color;

verus! {

/// Whether `color` is a colour that following `ray` for at most
/// `bounces_left` bounces can give, with the five functions answering as
/// they may.
///
/// With no bounce left it is black. Else the scene is asked for a hit in
/// the window [`Interval::visible`]. Without a hit it is what `sky` gives
/// for the ray. With a hit the surface is asked to scatter. If it does not,
/// it is black. If it does and sends no ray on, it is what the surface
/// emits. Otherwise the new ray is followed with one bounce less, and it is
/// what `mix` makes of the emitted colour, the attenuation and the colour
/// that comes back.
pub open spec fn outcome<T, S, E, K, M>(
    trace: T,
    scatter: S,
    emit: E,
    sky: K,
    mix: M,
    ray: Ray,
    bounces_left: nat,
    color: Color,
) -> bool where
    T: Fn(&Ray, &Interval) -> Option<HitRecord>,
    S: Fn(&Ray, &HitRecord) -> Option<ScatterResult>,
    E: Fn(&HitRecord) -> Color,
    K: Fn(&Ray) -> Color,
    M: Fn(Color, Color, Color) -> Color,

    decreases bounces_left,
{
    if bounces_left == 0 {
        color == Color::dark()
    } else {
        exists|found: Option<HitRecord>| #[trigger]
            call_ensures(trace, (&ray, &Interval::visible()), found) && match found {
                None => call_ensures(sky, (&ray,), color),
                Some(hit) => exists|scattered: Option<ScatterResult>| #[trigger]
                    call_ensures(scatter, (&ray, &hit), scattered) && match scattered {
                        None => color == Color::dark(),
                        Some(result) => exists|emitted: Color| #[trigger]
                            call_ensures(emit, (&hit,), emitted) && match result.new_ray {
                                None => color == emitted,
                                Some(next) => exists|incoming: Color|
                                    outcome(
                                        trace,
                                        scatter,
                                        emit,
                                        sky,
                                        mix,
                                        next,
                                        (bounces_left - 1) as nat,
                                        incoming,
                                    ) && #[trigger] call_ensures(
                                        mix,
                                        (emitted, result.attenuation, incoming),
                                        color,
                                    ),
                            },
                    },
            }
    }
}

/// The colour that arrives along `ray`, followed for at most
/// `bounces_left` bounces.
///
/// The scene and its arithmetic are the five functions: `trace` finds the
/// hit of a ray within a window, `scatter` asks the surface that was hit
/// for a new ray, `emit` gives the light that the surface sends out itself,
/// `sky` the colour of the background behind a ray that hits nothing, and
/// `mix(emitted, attenuation, incoming)` adds the emitted colour to the
/// incoming one, taken channel by channel times the attenuation.
///
/// Cutting the path off when the bounces are used up loses light: it is a
/// bound on the work, and the picture is the darker for it.
pub fn ray_color<T, S, E, K, M>(
    ray: Ray,
    bounces_left: u32,
    trace: &T,
    scatter: &S,
    emit: &E,
    sky: &K,
    mix: &M,
) -> (color: Color) where
    T: Fn(&Ray, &Interval) -> Option<HitRecord>,
    S: Fn(&Ray, &HitRecord) -> Option<ScatterResult>,
    E: Fn(&HitRecord) -> Color,
    K: Fn(&Ray) -> Color,
    M: Fn(Color, Color, Color) -> Color,

    requires
        forall|r: &Ray, w: &Interval| call_requires(*trace, (r, w)),
        forall|r: &Ray, h: &HitRecord| call_requires(*scatter, (r, h)),
        forall|h: &HitRecord| call_requires(*emit, (h,)),
        forall|r: &Ray| call_requires(*sky, (r,)),
        forall|a: Color, b: Color, c: Color| call_requires(*mix, (a, b, c)),
    ensures
        outcome(*trace, *scatter, *emit, *sky, *mix, ray, bounces_left as nat, color),
        bounces_left == 0 ==> color == Color::dark(),
    decreases bounces_left,
{
    if bounces_left == 0 {
        return Color::black();
    }
    let window = Interval::ray_window();
    let found = trace(&ray, &window);
    match found {
        None => {
            let color = sky(&ray);
            color
        },
        Some(hit) => {
            let scattered = scatter(&ray, &hit);
            match scattered {
                None => {
                    assert(call_ensures(*scatter, (&ray, &hit), scattered));
                    Color::black()
                },
                Some(result) => {
                    let emitted = emit(&hit);
                    match result.new_ray {
                        None => {
                            assert(call_ensures(*emit, (&hit,), emitted));
                            assert(call_ensures(*scatter, (&ray, &hit), scattered));
                            emitted
                        },
                        Some(next) => {
                            let incoming = ray_color(
                                next,
                                bounces_left - 1,
                                trace,
                                scatter,
                                emit,
                                sky,
                                mix,
                            );
                            let color = mix(emitted, result.attenuation, incoming);
                            assert(call_ensures(*mix, (emitted, result.attenuation, incoming), color));
                            assert(call_ensures(*emit, (&hit,), emitted));
                            assert(call_ensures(*scatter, (&ray, &hit), scattered));
                            color
                        },
                    }
                },
            }
        },
    }
}

/// With no bounce left, every ray comes back black, whatever the scene.
pub proof fn lemma_no_bounce_is_black<T, S, E, K, M>(
    trace: T,
    scatter: S,
    emit: E,
    sky: K,
    mix: M,
    ray: Ray,
    color: Color,
) where
    T: Fn(&Ray, &Interval) -> Option<HitRecord>,
    S: Fn(&Ray, &HitRecord) -> Option<ScatterResult>,
    E: Fn(&HitRecord) -> Color,
    K: Fn(&Ray) -> Color,
    M: Fn(Color, Color, Color) -> Color,

    requires
        outcome(trace, scatter, emit, sky, mix, ray, 0, color),
    ensures
        color == Color::dark(),
{
}

/// In a scene in which no ray hits anything, a ray with a bounce left
/// comes back with the colour of the sky behind it.
pub proof fn lemma_miss_is_sky<T, S, E, K, M>(
    trace: T,
    scatter: S,
    emit: E,
    sky: K,
    mix: M,
    ray: Ray,
    bounces_left: nat,
    color: Color,
) where
    T: Fn(&Ray, &Interval) -> Option<HitRecord>,
    S: Fn(&Ray, &HitRecord) -> Option<ScatterResult>,
    E: Fn(&HitRecord) -> Color,
    K: Fn(&Ray) -> Color,
    M: Fn(Color, Color, Color) -> Color,

    requires
        bounces_left > 0,
        forall|r: &Ray, w: &Interval, found: Option<HitRecord>|
            call_ensures(trace, (r, w), found) ==> found is None,
        outcome(trace, scatter, emit, sky, mix, ray, bounces_left, color),
    ensures
        call_ensures(sky, (&ray,), color),
{
}

} // verus!
