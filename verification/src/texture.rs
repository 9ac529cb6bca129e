//! Textures: a constant color, or a three-dimensional checker that picks
//! one of two sub-textures by the parity of the grid cell the point
//! falls in.

use vstd::prelude::*;
use crate::color::{Color, color_le};
use crate::math::{fdiv, iabs};
use crate::vec3::Vec3;

verus! {

/// Edge length of a checker cell on the fixed-point grid, about a third
/// of a world unit.
pub const CELL: i64 = 322;

pub enum Texture {
    Constant(Color),
    Checker(Box<Texture>, Box<Texture>),
}

/// The grid cell along one axis (floor division).
pub open spec fn cell_of(c: int) -> int {
    c / (CELL as int)
}

/// The point falls in an odd cell of the three-dimensional checker.
pub open spec fn checker_odd(p: Vec3) -> bool {
    (cell_of(p.x as int) + cell_of(p.y as int) + cell_of(p.z as int)) % 2 == 1
}

/// What a texture evaluates to at a point.
pub open spec fn texture_value_spec(t: Texture, p: Vec3) -> Color
    decreases t,
{
    match t {
        Texture::Constant(c) => c,
        Texture::Checker(odd, even) => if checker_odd(p) {
            texture_value_spec(*odd, p)
        } else {
            texture_value_spec(*even, p)
        },
    }
}

/// Every color reachable in the texture has channels in `[0, m]`.
pub open spec fn texture_le(t: Texture, m: int) -> bool
    decreases t,
{
    match t {
        Texture::Constant(c) => color_le(c, m),
        Texture::Checker(odd, even) => texture_le(*odd, m) && texture_le(*even, m),
    }
}

pub proof fn lemma_texture_value_le(t: Texture, p: Vec3, m: int)
    requires
        texture_le(t, m),
    ensures
        color_le(texture_value_spec(t, p), m),
    decreases t,
{
    match t {
        Texture::Constant(c) => {},
        Texture::Checker(odd, even) => {
            lemma_texture_value_le(*odd, p, m);
            lemma_texture_value_le(*even, p, m);
        },
    }
}

/// Decides which checker cell parity the point has.
fn checker_odd_exec(p: &Vec3) -> (r: bool)
    ensures
        r == checker_odd(*p),
{
    let cx = fdiv(p.x as i128, CELL as i128);
    let cy = fdiv(p.y as i128, CELL as i128);
    let cz = fdiv(p.z as i128, CELL as i128);
    proof {
        assert(iabs(cx as int) <= iabs(p.x as int) && iabs(cy as int) <= iabs(p.y as int)
            && iabs(cz as int) <= iabs(p.z as int));
    }
    let s = cx + cy + cz;
    let h = fdiv(s, 2);
    let m = s - 2 * h;
    proof {
        vstd::arithmetic::div_mod::lemma_fundamental_div_mod(s as int, 2int);
    }
    m == 1
}

impl Texture {
    /// A texture that ignores the point and always evaluates to `color`.
    pub fn constant(color: Color) -> (t: Texture)
        ensures
            t == Texture::Constant(color),
    {
        Texture::Constant(color)
    }

    /// A three-dimensional checker alternating between two sub-textures.
    pub fn checker(odd: Texture, even: Texture) -> (t: Texture)
        ensures
            t == Texture::Checker(Box::new(odd), Box::new(even)),
    {
        Texture::Checker(Box::new(odd), Box::new(even))
    }

    /// Evaluates the texture at surface coordinates `(u, v)` and world
    /// point `p`; only the checker looks at the point, none look at
    /// `(u, v)`.
    #[allow(unused_variables)]
    pub fn value(&self, u: i64, v: i64, p: &Vec3) -> (c: Color)
        ensures
            c == texture_value_spec(*self, *p),
        decreases *self,
    {
        match self {
            Texture::Constant(color) => *color,
            Texture::Checker(odd, even) => {
                if checker_odd_exec(p) {
                    odd.value(u, v, p)
                } else {
                    even.value(u, v, p)
                }
            },
        }
    }
}

} // verus!
