//! Surface materials: what a surface reflects and what it emits.

use vstd::prelude::*;
use crate::vector::{
    Int3, Vector3, COORD_LIMIT, SUM_LIMIT, lemma_dot_bound, lemma_product_bound, shorten,
    spec_shortened,
};

verus! {

/// Colours are counted in units of `1 / COLOR_SCALE`.
pub const COLOR_SCALE: i64 = 1000;

/// How a surface scatters light.
#[derive(Clone, Copy, Debug, PartialEq, Eq, Structural)]
pub enum MaterialType {
    Diffuse,
    ReflectAndRefract,
    DiffuseAndGlossy,
}

/// A material: its kind, its colour, the radiance that it emits (zero for a
/// surface that is no light), and its diffuse reflectance per channel.
#[derive(Clone, Copy, Debug, PartialEq, Eq, Structural)]
pub struct Material {
    pub material_type: MaterialType,
    pub color: Vector3,
    pub emission: Vector3,
    pub kd: Vector3,
    pub specular_exponent: i64,
    pub ior: i64,
}

impl Material {
    /// The material emits light: its emission is not the zero vector.
    pub open spec fn spec_has_emission(self) -> bool {
        !self.emission@.is_zero()
    }

    /// What `eval` returns: the diffuse reflectance where the material is
    /// diffuse and the outgoing direction leaves the surface on the side of
    /// the normal, else zero.
    pub open spec fn spec_eval(self, outgoing: Vector3, normal: Vector3) -> Vector3 {
        if self.material_type == MaterialType::Diffuse && normal@.dot(outgoing@) > 0 {
            self.kd
        } else {
            Vector3 { x: 0, y: 0, z: 0 }
        }
    }

    /// A material of the given kind, colour and emission that reflects
    /// nothing yet: `kd` is zero.
    pub fn new(material_type: MaterialType, color: Vector3, emission: Vector3) -> (m: Material)
        ensures
            m == (Material {
                material_type,
                color,
                emission,
                kd: Vector3 { x: 0, y: 0, z: 0 },
                specular_exponent: 0,
                ior: 0,
            }),
    {
        Material {
            material_type,
            color,
            emission,
            kd: Vector3 { x: 0, y: 0, z: 0 },
            specular_exponent: 0,
            ior: 0,
        }
    }

    pub fn get_type(&self) -> (t: MaterialType)
        ensures
            t == self.material_type,
    {
        self.material_type
    }

    pub fn get_emission(&self) -> (e: Vector3)
        ensures
            e == self.emission,
    {
        self.emission
    }

    pub fn has_emission(&self) -> (b: bool)
        ensures
            b == self.spec_has_emission(),
    {
        !self.emission.is_zero()
    }

    /// The reflectance towards `outgoing` at a surface with the given
    /// normal, in units of `1 / pi`. The mirror kinds are traced, not
    /// evaluated: for them it is zero.
    pub fn eval(&self, outgoing: &Vector3, normal: &Vector3) -> (c: Vector3)
        requires
            outgoing@.within(SUM_LIMIT as int),
            normal@.within(SUM_LIMIT as int),
        ensures
            c == self.spec_eval(*outgoing, *normal),
    {
        match self.material_type {
            MaterialType::Diffuse => {
                if normal.dot(outgoing) > 0 {
                    self.kd
                } else {
                    Vector3::zeros()
                }
            },
            _ => Vector3::zeros(),
        }
    }
}

/// The mirror image of the direction `incoming` at a surface with the
/// given normal, not shortened: `incoming - 2 (incoming . n) n / (n . n)`,
/// in units of `1 / (n . n)`.
pub open spec fn spec_mirror_exact(incoming: Int3, normal: Int3) -> Int3 {
    incoming.scale(normal.dot(normal)).minus(normal.scale(2 * incoming.dot(normal)))
}

/// The direction into which a mirror with the given normal reflects a ray
/// that comes in along `incoming`: the exact mirror image, shortened to the
/// lattice. The normal need not have unit length, and either side of the
/// surface gives the same direction.
pub fn reflect(incoming: &Vector3, normal: &Vector3) -> (r: Vector3)
    requires
        incoming@.within(COORD_LIMIT as int),
        normal@.within(2199023255552),
    ensures
        r@ == spec_shortened(spec_mirror_exact(incoming@, normal@)),
        r@.within(COORD_LIMIT as int),
{
    let nn = normal.dot(normal);
    let dn = normal.dot(incoming);
    proof {
        lemma_dot_bound(normal@, normal@, 2199023255552, 2199023255552);
        lemma_dot_bound(normal@, incoming@, 2199023255552, 524288);
        assert(incoming@.dot(normal@) == normal@.dot(incoming@)) by (nonlinear_arith);
        let a: int = 3 * (2199023255552int * 2199023255552int);
        let b: int = 2 * (3 * (2199023255552int * 524288int));
        lemma_product_bound(nn as int, incoming.x as int, a, 524288);
        lemma_product_bound(nn as int, incoming.y as int, a, 524288);
        lemma_product_bound(nn as int, incoming.z as int, a, 524288);
        lemma_product_bound(2 * dn, normal.x as int, b, 2199023255552);
        lemma_product_bound(2 * dn, normal.y as int, b, 2199023255552);
        lemma_product_bound(2 * dn, normal.z as int, b, 2199023255552);
        assert(a * 524288 + b * 2199023255552 < 0x2000_0000_0000_0000_0000_0000_0000_0000)
            by (nonlinear_arith)
            requires
                a == 3 * (2199023255552 * 2199023255552),
                b == 2 * (3 * (2199023255552 * 524288)),
        ;
    }
    let two_dn = 2 * dn;
    let x = nn * (incoming.x as i128) - two_dn * (normal.x as i128);
    let y = nn * (incoming.y as i128) - two_dn * (normal.y as i128);
    let z = nn * (incoming.z as i128) - two_dn * (normal.z as i128);
    shorten(x, y, z)
}

} // verus!
