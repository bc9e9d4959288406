use crate::fixed::{
    div_fx, fxdiv, fxmul, fxsqrt, lemma_sqrt_floor_below, lemma_tdiv_bounded,
    lemma_tdiv_nonincreasing, mul_fx, sqrt_fx,
};
use crate::hit::{rec_wf, spec_record, view_opt, HitRecV, HitRecord, Hittable, NLIM};
use crate::material::{mat_wf, Material};
use crate::ray::{ray_wf, spec_at, Ray, RayV, GLIM, OLIM, TLIM};
use crate::vec3::{
    bounded3, lemma_abs_product, lemma_dot_bounded2, lemma_scale_bounded, lemma_vlen_sq_nonneg,
    vdivs, vdot, vlen_sq, vsub, Point3, Vec3, V3,
};
use vstd::prelude::*;

verus! {

/// One spherical surface. A negative radius is allowed: it flips the
/// outward normal, producing a hollow sphere.
#[derive(Clone, Copy, Debug)]
pub struct Sphere {
    pub center: Point3,
    pub radius: i64,
    pub material: Material,
}

/// The whole surface of the sphere fits inside the world box:
/// componentwise, the center offset by the radius either way stays within
/// `GLIM`. Every point of such a sphere lies well inside the wider box
/// accepted for hit points.
pub open spec fn sphere_in_world(center: V3, radius: int) -> bool {
    let ar = if radius >= 0 {
        radius
    } else {
        -radius
    };
    &&& -(GLIM as int) <= center.x - ar
    &&& center.x + ar <= GLIM as int
    &&& -(GLIM as int) <= center.y - ar
    &&& center.y + ar <= GLIM as int
    &&& -(GLIM as int) <= center.z - ar
    &&& center.z + ar <= GLIM as int
}

impl Sphere {
    /// Build a sphere from its center, radius and material.
    pub fn new(center: Point3, radius: i64, material: Material) -> (s: Sphere)
        requires
            radius != 0,
            sphere_in_world(center@, radius as int),
            mat_wf(material),
        ensures
            s.center == center,
            s.radius == radius,
            s.material == material,
            s.surface_wf(),
    {
        Sphere { center, radius, material }
    }
}

/// The record for root `t`, accepted only when `t` lies strictly inside
/// `(t_min, t_max)` and the hit point and outward normal fall inside the
/// bounds shading is proved for. For a well-formed sphere every exact hit
/// point lies inside `GLIM`, well within the accepted box, and its
/// outward normal is unit scale; the guard can therefore exclude only a
/// numerically degenerate root (a near-tangent ray whose computed point
/// drifts far off the surface), not a true hit on admitted geometry.
pub open spec fn spec_sphere_root(s: Sphere, r: RayV, t: int, t_min: int, t_max: int) -> Option<
    HitRecV,
> {
    if t_min < t && t < t_max {
        let p = spec_at(r, t);
        let outward = vdivs(vsub(p, s.center@), s.radius as int);
        if bounded3(p, OLIM as int) && bounded3(outward, NLIM as int) {
            Some(spec_record(p, r, outward, t, s.material))
        } else {
            None
        }
    } else {
        None
    }
}

/// The ray-sphere intersection: the standard half-`b` quadratic, a hit
/// only for a strictly positive discriminant, the near root tried first.
pub open spec fn spec_sphere_hit(s: Sphere, r: RayV, t_min: int, t_max: int) -> Option<HitRecV> {
    let oc = vsub(r.origin, s.center@);
    let a = vlen_sq(r.direction);
    let half_b = vdot(oc, r.direction);
    let c = vlen_sq(oc) - fxmul(s.radius as int, s.radius as int);
    let disc = fxmul(half_b, half_b) - fxmul(a, c);
    if disc > 0 && a != 0 {
        let root = fxsqrt(disc);
        let near = spec_sphere_root(s, r, fxdiv(-half_b - root, a), t_min, t_max);
        if near is Some {
            near
        } else {
            spec_sphere_root(s, r, fxdiv(-half_b + root, a), t_min, t_max)
        }
    } else {
        None
    }
}

impl Sphere {
    /// Try one root of the quadratic.
    fn try_root(&self, r: &Ray, t: i64, t_min: i64, t_max: i64) -> (res: Option<HitRecord>)
        requires
            self.surface_wf(),
            ray_wf(r@),
            1 <= t_min <= t_max <= TLIM,
        ensures
            view_opt(res) == spec_sphere_root(*self, r@, t as int, t_min as int, t_max as int),
            res matches Some(rec) ==> {
                &&& rec_wf(rec@)
                &&& t_min < rec.t < t_max
                &&& vdot(r@.direction, rec@.normal) <= 0
            },
    {
        if t_min < t && t < t_max {
            let p = r.at(t);
            proof {
                lemma_scale_bounded(r@.direction, t as int, 33554432, 68719476736);
            }
            let offset = p.sub(self.center);
            let outward = offset.div(self.radius);
            let inside = p.x >= -OLIM && p.x <= OLIM && p.y >= -OLIM && p.y <= OLIM && p.z >= -OLIM
                && p.z <= OLIM && outward.x >= -NLIM && outward.x <= NLIM && outward.y >= -NLIM
                && outward.y <= NLIM && outward.z >= -NLIM && outward.z <= NLIM;
            if inside {
                Some(HitRecord::new(p, r, outward, t, self.material))
            } else {
                None
            }
        } else {
            None
        }
    }
}

impl Hittable for Sphere {
    /// The sphere's whole surface lies inside the world box, the radius
    /// is non-zero and the material is well-formed.
    open spec fn surface_wf(&self) -> bool {
        &&& self.radius != 0
        &&& sphere_in_world(self.center@, self.radius as int)
        &&& mat_wf(self.material)
    }

    open spec fn spec_hit(&self, r: RayV, t_min: int, t_max: int) -> Option<HitRecV> {
        spec_sphere_hit(*self, r, t_min, t_max)
    }

    /// Solve the quadratic for the ray against this sphere and return the
    /// nearest acceptable root.
    fn hit(&self, r: &Ray, t_min: i64, t_max: i64) -> (res: Option<HitRecord>) {
        let dir = r.direction();
        let oc = r.origin().sub(self.center);
        proof {
            lemma_dot_bounded2(r@.direction, r@.direction, 33554432, 33554432);
            lemma_dot_bounded2(vsub(r@.origin, self.center@), r@.direction, 301989888, 33554432);
            lemma_dot_bounded2(
                vsub(r@.origin, self.center@),
                vsub(r@.origin, self.center@),
                301989888,
                301989888,
            );
            lemma_vlen_sq_nonneg(r@.direction);
            lemma_vlen_sq_nonneg(vsub(r@.origin, self.center@));
        }
        let a = dir.length_squared();
        let half_b = Vec3::dot(&oc, &dir);
        proof {
            lemma_abs_product(self.radius as int, self.radius as int, 134217728, 134217728);
            lemma_tdiv_bounded(
                (self.radius as int) * (self.radius as int),
                65536,
                134217728int * 134217728,
            );
            lemma_tdiv_nonincreasing((self.radius as int) * (self.radius as int), 65536);
            assert(0 <= (self.radius as int) * (self.radius as int)) by (nonlinear_arith);
        }
        let rr = mul_fx(self.radius, self.radius);
        let c = oc.length_squared() - rr;
        proof {
            lemma_abs_product(half_b as int, half_b as int, 463856467968, 463856467968);
            lemma_abs_product(a as int, c as int, 51539607552, 4449586118656);
            lemma_tdiv_bounded(
                (half_b as int) * (half_b as int),
                65536,
                463856467968int * 463856467968,
            );
            lemma_tdiv_bounded((a as int) * (c as int), 65536, 51539607552int * 4449586118656);
        }
        let disc = mul_fx(half_b, half_b) - mul_fx(a, c);
        if disc > 0 && a != 0 {
            let root = sqrt_fx(disc);
            proof {
                assert((disc as int) * 65536 < 1099511627776int * 1099511627776)
                    by (nonlinear_arith)
                    requires
                        0 <= (disc as int) <= 6800000000000000000int,
                ;
                lemma_sqrt_floor_below((disc as int) * 65536, 1099511627776);
            }
            let near = self.try_root(r, div_fx(-half_b - root, a), t_min, t_max);
            if near.is_some() {
                near
            } else {
                self.try_root(r, div_fx(-half_b + root, a), t_min, t_max)
            }
        } else {
            None
        }
    }
}

} // verus!
