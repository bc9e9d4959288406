use crate::vec3::{bounded3, vadd, vscale, Point3, Vec3, V3};
use vstd::prelude::*;

verus! {

/// Ray origins and accepted hit points stay within this bound
/// (2560 world units); the spheres themselves fit inside `GLIM`, so the
/// box leaves wide slack beyond any point of an admitted surface.
pub const OLIM: i64 = 167772160;

/// Every admitted sphere fits inside this bound (2048 world units):
/// componentwise, its center plus and minus its radius stay within it.
pub const GLIM: i64 = 134217728;

/// Ray directions stay within this bound (`2^25` raw units).
pub const DLIM: i64 = 33554432;

/// The stand-in for an unbounded ray parameter (`2^36` raw units): every
/// `t_max` handed to an intersection test is at most this.
pub const TLIM: i64 = 68719476736;

/// The mathematical model of a ray.
pub ghost struct RayV {
    pub origin: V3,
    pub direction: V3,
}

/// A ray: a parametrized line `origin + t * direction`.
#[derive(Clone, Copy, Debug, PartialEq, Eq, Structural)]
pub struct Ray {
    pub origin: Point3,
    pub direction: Vec3,
}

impl View for Ray {
    type V = RayV;

    open spec fn view(&self) -> RayV {
        RayV { origin: self.origin@, direction: self.direction@ }
    }
}

/// The ray's origin and direction are inside the bounds the intersection
/// arithmetic is proved for.
pub open spec fn ray_wf(r: RayV) -> bool {
    &&& bounded3(r.origin, 167772160)
    &&& bounded3(r.direction, 33554432)
}

/// The point the ray reaches at parameter `t`.
pub open spec fn spec_at(r: RayV, t: int) -> V3 {
    vadd(r.origin, vscale(r.direction, t))
}

impl Ray {
    /// Build a ray from an origin and a direction.
    pub fn new(origin: Point3, direction: Vec3) -> (r: Ray)
        ensures
            r@.origin == origin@,
            r@.direction == direction@,
    {
        Ray { origin, direction }
    }

    /// The ray's origin.
    pub fn origin(&self) -> (p: Point3)
        ensures
            p@ == self@.origin,
    {
        self.origin
    }

    /// The ray's direction.
    pub fn direction(&self) -> (d: Vec3)
        ensures
            d@ == self@.direction,
    {
        self.direction
    }

    /// The point the ray reaches at parameter `t`.
    pub fn at(&self, t: i64) -> (p: Point3)
        requires
            ray_wf(self@),
            -TLIM <= t <= TLIM,
        ensures
            p@ == spec_at(self@, t as int),
    {
        proof {
            crate::vec3::lemma_scale_bounded(self@.direction, t as int, 33554432, 68719476736);
        }
        self.origin.add(self.direction.scale(t))
    }
}

} // verus!
