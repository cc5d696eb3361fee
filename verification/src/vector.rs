//! Triples of numbers: points, directions and colours.

use vstd::prelude::*;
use crate::scalar::{Scalar, HALF_BITS, ONE_BITS, SEVEN_TENTHS_BITS, TINY_BITS, ZERO_BITS};

verus! {

/// A point or a direction in space, one number per axis.
#[derive(Clone, Copy, Debug, PartialEq, Eq, Structural)]
pub struct Vector3 {
    pub x: Scalar,
    pub y: Scalar,
    pub z: Scalar,
}

impl Vector3 {
    /// The component on axis `a`: 1 is y, 2 is z, anything else is x.
    pub open spec fn component(self, a: int) -> Scalar {
        if a == 1 {
            self.y
        } else if a == 2 {
            self.z
        } else {
            self.x
        }
    }

    /// The vector that points the other way.
    pub open spec fn negated(self) -> Vector3 {
        Vector3 { x: self.x.negated(), y: self.y.negated(), z: self.z.negated() }
    }

    /// Every component is closer to zero than `1e-8`.
    pub open spec fn vanishing(self) -> bool {
        let tiny = Scalar { bits: TINY_BITS };
        self.x.absolute().less(tiny) && self.y.absolute().less(tiny) && self.z.absolute().less(
            tiny,
        )
    }

    pub fn new(x: Scalar, y: Scalar, z: Scalar) -> (r: Vector3)
        ensures
            r == (Vector3 { x, y, z }),
    {
        Vector3 { x, y, z }
    }

    /// The component on axis `a`, see [`Vector3::component`].
    pub fn axis(&self, a: usize) -> (r: Scalar)
        ensures
            r == self.component(a as int),
    {
        if a == 1 {
            self.y
        } else if a == 2 {
            self.z
        } else {
            self.x
        }
    }

    /// The vector that points the other way.
    pub fn neg(&self) -> (r: Vector3)
        ensures
            r == self.negated(),
    {
        Vector3 { x: self.x.neg(), y: self.y.neg(), z: self.z.neg() }
    }

    /// Whether the vector is too short to serve as a direction.
    pub fn near_zero(&self) -> (r: bool)
        ensures
            r == self.vanishing(),
    {
        let tiny = Scalar { bits: TINY_BITS };
        self.x.abs().lt(tiny) && self.y.abs().lt(tiny) && self.z.abs().lt(tiny)
    }
}

/// Radiance or reflectance, one number each for red, green and blue.
#[derive(Clone, Copy, Debug, PartialEq, Eq, Structural)]
pub struct Color(pub Vector3);

impl Color {
    /// No light at all.
    pub open spec fn dark() -> Color {
        let zero = Scalar { bits: ZERO_BITS };
        Color(Vector3 { x: zero, y: zero, z: zero })
    }

    pub fn new(x: Scalar, y: Scalar, z: Scalar) -> (r: Color)
        ensures
            r == Color(Vector3 { x, y, z }),
    {
        Color(Vector3 { x, y, z })
    }

    /// The colour as three bytes, each channel cut off after the point and
    /// held to `0..=255`. It is meant for channels that were scaled to the
    /// range of a byte beforehand.
    pub fn to_rgb8(&self) -> (r: [u8; 3])
        ensures
            r[0] == self.0.x.whole_byte(),
            r[1] == self.0.y.whole_byte(),
            r[2] == self.0.z.whole_byte(),
    {
        [self.0.x.to_u8(), self.0.y.to_u8(), self.0.z.to_u8()]
    }

    /// The colour at the lower end of the sky's gradient, seen straight
    /// down: white.
    pub fn white() -> (r: Color)
        ensures
            r == Color(
                Vector3 { x: Scalar::of(ONE_BITS), y: Scalar::of(ONE_BITS), z: Scalar::of(ONE_BITS) },
            ),
    {
        let one = Scalar { bits: ONE_BITS };
        Color(Vector3 { x: one, y: one, z: one })
    }

    /// The colour at the upper end of the sky's gradient, seen straight
    /// up: `(0.5, 0.7, 1.0)`.
    pub fn sky_blue() -> (r: Color)
        ensures
            r == Color(
                Vector3 {
                    x: Scalar::of(HALF_BITS),
                    y: Scalar::of(SEVEN_TENTHS_BITS),
                    z: Scalar::of(ONE_BITS),
                },
            ),
    {
        Color(
            Vector3 {
                x: Scalar { bits: HALF_BITS },
                y: Scalar { bits: SEVEN_TENTHS_BITS },
                z: Scalar { bits: ONE_BITS },
            },
        )
    }

    /// No light at all: `0.0` in every channel.
    pub fn black() -> (r: Color)
        ensures
            r == Color::dark(),
    {
        let zero = Scalar { bits: ZERO_BITS };
        Color(Vector3 { x: zero, y: zero, z: zero })
    }
}

} // verus!
