//! Palette colors on SIXEL's 0 to 100 intensity scale.
use vstd::prelude::*;

use crate::decimal::{decimal, push_decimal};

verus! {

/// One palette entry: red, green and blue intensities, each from 0 to 100.
#[derive(Clone, Copy, Debug, Hash, PartialEq, Eq, Structural)]
pub struct Color {
    r: u8,
    g: u8,
    b: u8,
}

/// Whether `v` lies on the intensity scale.
pub open spec fn is_intensity(v: u8) -> bool {
    v <= 100
}

/// The intensity for an 8-bit channel value: `v * 100 / 255`, rounded down.
pub open spec fn u8_intensity(v: u8) -> u8 {
    (v * 100 / 255) as u8
}

/// The absolute difference of two channel values.
pub open spec fn channel_difference(x: u8, y: u8) -> u8 {
    if x >= y {
        (x - y) as u8
    } else {
        (y - x) as u8
    }
}

/// The channel-wise absolute difference of two colors.
pub open spec fn color_difference(a: Color, b: Color) -> Seq<u8> {
    seq![
        channel_difference(a@.0, b@.0),
        channel_difference(a@.1, b@.1),
        channel_difference(a@.2, b@.2),
    ]
}

/// The color-definition command `#<index>;2;<r>;<g>;<b>` for `color` at
/// palette position `index`; `2` selects the RGB color space.
pub open spec fn color_command(index: nat, color: Color) -> Seq<u8> {
    seq![35u8] + decimal(index) + seq![59u8, 50u8, 59u8] + decimal(color@.0 as nat) + seq![59u8]
        + decimal(color@.1 as nat) + seq![59u8] + decimal(color@.2 as nat)
}

impl View for Color {
    type V = (u8, u8, u8);

    closed spec fn view(&self) -> (u8, u8, u8) {
        (self.r, self.g, self.b)
    }
}

impl Color {
    #[verifier::type_invariant]
    spec fn inv(self) -> bool {
        is_intensity(self.r) && is_intensity(self.g) && is_intensity(self.b)
    }

    /// Creates a color from RGB intensities, each from 0 to 100.
    pub fn from_intensity(v: [u8; 3]) -> (c: Self)
        requires
            is_intensity(v@[0]),
            is_intensity(v@[1]),
            is_intensity(v@[2]),
        ensures
            c@ == (v@[0], v@[1], v@[2]),
    {
        Color { r: v[0], g: v[1], b: v[2] }
    }

    /// Creates a color from 8-bit RGB, rescaling each channel from 0..=255
    /// to 0..=100 and rounding down.
    pub fn from_rgb_u8(v: [u8; 3]) -> (c: Self)
        ensures
            c@ == (u8_intensity(v@[0]), u8_intensity(v@[1]), u8_intensity(v@[2])),
            c == rgb_u8_color(v),
    {
        Self::from_intensity([u8_to_intensity(v[0]), u8_to_intensity(v[1]), u8_to_intensity(v[2])])
    }

    /// The red, green and blue intensities.
    pub fn intensity(self) -> (r: [u8; 3])
        ensures
            r@ == seq![self@.0, self@.1, self@.2],
            is_intensity(r@[0]),
            is_intensity(r@[1]),
            is_intensity(r@[2]),
    {
        proof {
            use_type_invariant(&self);
        }
        let r = [self.r, self.g, self.b];
        assert(r@ =~= seq![self@.0, self@.1, self@.2]);
        r
    }

    /// The channel-wise absolute difference between `self` and `rhs`.
    pub fn difference(self, rhs: Self) -> (r: [u8; 3])
        ensures
            r@ == color_difference(self, rhs),
    {
        let r = [
            abs_diff(self.r, rhs.r),
            abs_diff(self.g, rhs.g),
            abs_diff(self.b, rhs.b),
        ];
        assert(r@ =~= color_difference(self, rhs));
        r
    }

    /// Appends the color-definition command for palette position `index`.
    pub(crate) fn write(self, index: usize, out: &mut Vec<u8>)
        ensures
            final(out)@ == old(out)@ + color_command(index as nat, self),
    {
        let ghost start = out@;
        out.push(35u8);
        push_decimal(out, index);
        out.push(59u8);
        out.push(50u8);
        out.push(59u8);
        push_decimal(out, self.r as usize);
        out.push(59u8);
        push_decimal(out, self.g as usize);
        out.push(59u8);
        push_decimal(out, self.b as usize);
        assert(out@ =~= start + color_command(index as nat, self));
    }
}

impl From<[u8; 3]> for Color {
    /// The color of 8-bit RGB channels, as [`Color::from_rgb_u8`] makes it.
    fn from(v: [u8; 3]) -> (c: Self) {
        Self::from_rgb_u8(v)
    }
}

impl vstd::std_specs::convert::FromSpecImpl<[u8; 3]> for Color {
    open spec fn obeys_from_spec() -> bool {
        true
    }

    open spec fn from_spec(v: [u8; 3]) -> Color {
        rgb_u8_color(v)
    }
}

/// The color that [`Color::from_rgb_u8`] makes of 8-bit channels `v`.
pub closed spec fn rgb_u8_color(v: [u8; 3]) -> Color {
    Color { r: u8_intensity(v@[0]), g: u8_intensity(v@[1]), b: u8_intensity(v@[2]) }
}

fn abs_diff(x: u8, y: u8) -> (r: u8)
    ensures
        r == channel_difference(x, y),
{
    if x >= y {
        x - y
    } else {
        y - x
    }
}

fn u8_to_intensity(v: u8) -> (r: u8)
    ensures
        r == u8_intensity(v),
        is_intensity(r),
{
    ((v as u16 * 100) / 255) as u8
}

/// `from_rgb_u8` gives the color that `from_intensity` makes of the
/// channels rescaled by `c * 100 / 255`, rounded down; those channels are
/// always valid intensities.
pub proof fn rgb_u8_is_rescaled_intensity(v: [u8; 3], t: [u8; 3])
    requires
        t@[0] == v@[0] * 100 / 255,
        t@[1] == v@[1] * 100 / 255,
        t@[2] == v@[2] * 100 / 255,
    ensures
        is_intensity(t@[0]),
        is_intensity(t@[1]),
        is_intensity(t@[2]),
        (u8_intensity(v@[0]), u8_intensity(v@[1]), u8_intensity(v@[2])) == (t@[0], t@[1], t@[2]),
{
}

/// A color differs from itself by zero in every channel, the difference is
/// symmetric, and it is zero exactly when the colors are equal.
pub proof fn difference_laws(a: Color, b: Color)
    ensures
        color_difference(a, a) == seq![0u8, 0u8, 0u8],
        color_difference(a, b) == color_difference(b, a),
        color_difference(a, b) == seq![0u8, 0u8, 0u8] <==> a == b,
{
    assert(color_difference(a, a) =~= seq![0u8, 0u8, 0u8]);
    assert(color_difference(a, b) =~= color_difference(b, a));
    if color_difference(a, b) == seq![0u8, 0u8, 0u8] {
        assert(color_difference(a, b)[0] == 0u8);
        assert(color_difference(a, b)[1] == 0u8);
        assert(color_difference(a, b)[2] == 0u8);
    }
}

} // verus!
