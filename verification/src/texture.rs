//! Surface colours: a constant colour, or a three-dimensional checkerboard
//! of two other textures.

use crate::fixed::Fixed;
use crate::vec3::Vec3;
use vstd::prelude::*;

verus! {

/// A texture: the colour of a surface at a point.
#[derive(Debug)]
pub enum Texture {
    Constant(ConstantTexture),
    Checker(CheckerTexture),
}

/// The same colour everywhere.
#[derive(Clone, Copy, Debug)]
pub struct ConstantTexture {
    pub color: Vec3,
}

/// A checkerboard that alternates between two textures in all three
/// directions, with cells of side `pi / 10`.
#[derive(Debug)]
pub struct CheckerTexture {
    pub odd_texture: Box<Texture>,
    pub even_texture: Box<Texture>,
}

/// Whether `point` lies in an odd cell of the checkerboard, that is whether
/// the product `sin(10 x) sin(10 y) sin(10 z)` is negative: none of the
/// three sines vanishes and an odd number of them is negative.
pub open spec fn in_odd_cell(point: Vec3) -> bool {
    let ten = Fixed::from_int(10);
    let sx = ten.mul(point.x).sine_sign();
    let sy = ten.mul(point.y).sine_sign();
    let sz = ten.mul(point.z).sine_sign();
    sx != 0 && sy != 0 && sz != 0 && (((sx < 0) != (sy < 0)) != (sz < 0))
}

impl ConstantTexture {
    /// The texture that is `color` everywhere.
    pub fn new(color: Vec3) -> (r: ConstantTexture)
        ensures
            r.color == color,
    {
        ConstantTexture { color }
    }

    /// The colour at a point: always `self.color`.
    pub fn value(&self, u: Fixed, v: Fixed, point: Vec3) -> (r: Vec3)
        ensures
            r == self.color,
    {
        self.color
    }
}

impl CheckerTexture {
    /// The checkerboard of the two given textures.
    pub fn new(odd_texture: Texture, even_texture: Texture) -> (r: CheckerTexture)
        ensures
            *r.odd_texture == odd_texture,
            *r.even_texture == even_texture,
    {
        CheckerTexture { odd_texture: Box::new(odd_texture), even_texture: Box::new(even_texture) }
    }

    /// The colour at a point: that of the odd texture in odd cells, that of
    /// the even texture elsewhere.
    pub open spec fn spec_value(&self, u: Fixed, v: Fixed, point: Vec3) -> Vec3
        decreases self,
    {
        if in_odd_cell(point) {
            self.odd_texture.spec_value(u, v, point)
        } else {
            self.even_texture.spec_value(u, v, point)
        }
    }

    /// Looks up the colour at a point.
    #[verifier::when_used_as_spec(spec_value)]
    pub fn value(&self, u: Fixed, v: Fixed, point: Vec3) -> (r: Vec3)
        ensures
            r == self.spec_value(u, v, point),
        decreases self,
    {
        let ten = Fixed::from_int(10);
        let sx: i8 = ten.mul(point.x).sine_sign();
        let sy: i8 = ten.mul(point.y).sine_sign();
        let sz: i8 = ten.mul(point.z).sine_sign();
        let odd = sx != 0 && sy != 0 && sz != 0 && (((sx < 0) != (sy < 0)) != (sz < 0));
        if odd {
            self.odd_texture.value(u, v, point)
        } else {
            self.even_texture.value(u, v, point)
        }
    }
}

impl Texture {
    /// The colour at the surface coordinates `(u, v)` and the point `point`.
    pub open spec fn spec_value(&self, u: Fixed, v: Fixed, point: Vec3) -> Vec3
        decreases self,
    {
        match self {
            Texture::Constant(t) => t.color,
            Texture::Checker(t) => t.spec_value(u, v, point),
        }
    }

    /// Looks up the colour at a point.
    #[verifier::when_used_as_spec(spec_value)]
    pub fn value(&self, u: Fixed, v: Fixed, point: Vec3) -> (r: Vec3)
        ensures
            r == self.spec_value(u, v, point),
        decreases self,
    {
        match self {
            Texture::Constant(t) => t.value(u, v, point),
            Texture::Checker(t) => t.value(u, v, point),
        }
    }
}

/// The colour of a texture depends on the point alone: the surface
/// coordinates do not enter it.
pub proof fn lemma_value_depends_on_point(
    texture: &Texture,
    u: Fixed,
    v: Fixed,
    other_u: Fixed,
    other_v: Fixed,
    point: Vec3,
)
    ensures
        texture.value(u, v, point) == texture.value(other_u, other_v, point),
    decreases texture,
{
    match texture {
        Texture::Constant(t) => {},
        Texture::Checker(t) => {
            lemma_value_depends_on_point(&*t.odd_texture, u, v, other_u, other_v, point);
            lemma_value_depends_on_point(&*t.even_texture, u, v, other_u, other_v, point);
        },
    }
}

} // verus!
