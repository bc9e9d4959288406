use crate::material::{mat_wf, Material};
use crate::ray::{ray_wf, Ray, RayV, TLIM};
use crate::sphere::{spec_sphere_hit, Sphere};
use crate::vec3::{bounded3, lemma_vdot_neg, vdot, vneg, Point3, Vec3, V3, VLIM};
use vstd::prelude::*;

verus! {

/// The bound for hit-record normals (four world units): the outward normal
/// of a well-formed sphere is unit-scale, and an intersection whose normal
/// falls outside this box is discarded defensively.
pub const NLIM: i64 = 262144;

/// The mathematical model of a hit record.
pub ghost struct HitRecV {
    pub p: V3,
    pub normal: V3,
    pub t: int,
    pub front_face: bool,
    pub material: Material,
}

/// The data produced when a ray meets a surface. It is built only at the
/// moment of a successful intersection and consumed within one bounce.
#[derive(Clone, Copy, Debug, PartialEq, Eq, Structural)]
pub struct HitRecord {
    pub p: Point3,
    pub normal: Vec3,
    pub t: i64,
    pub front_face: bool,
    pub material: Material,
}

impl View for HitRecord {
    type V = HitRecV;

    open spec fn view(&self) -> HitRecV {
        HitRecV {
            p: self.p@,
            normal: self.normal@,
            t: self.t as int,
            front_face: self.front_face,
            material: self.material,
        }
    }
}

/// The record's fields are inside the bounds shading is proved for, and
/// its parameter is strictly positive.
pub open spec fn rec_wf(rec: HitRecV) -> bool {
    &&& bounded3(rec.p, 167772160)
    &&& bounded3(rec.normal, 262144)
    &&& 0 < rec.t
    &&& mat_wf(rec.material)
}

/// The record built from an outward normal under the front-face
/// convention: the stored normal is flipped so that it always opposes the
/// incident direction.
pub open spec fn spec_record(p: V3, r: RayV, outward: V3, t: int, m: Material) -> HitRecV {
    let ff = vdot(r.direction, outward) < 0;
    HitRecV {
        p,
        normal: if ff {
            outward
        } else {
            vneg(outward)
        },
        t,
        front_face: ff,
        material: m,
    }
}

/// The view of an optional record.
pub open spec fn view_opt(res: Option<HitRecord>) -> Option<HitRecV> {
    match res {
        Some(rec) => Some(rec@),
        None => None,
    }
}

impl HitRecord {
    /// Build a record from the hit point, the ray, the geometric outward
    /// normal and the hit parameter, flipping the normal so that it
    /// opposes the ray (the front-face convention).
    pub fn new(p: Point3, r: &Ray, outward_normal: Vec3, t: i64, material: Material) -> (rec:
        HitRecord)
        requires
            bounded3(r@.direction, VLIM as int),
            bounded3(outward_normal@, VLIM as int),
        ensures
            rec@ == spec_record(p@, r@, outward_normal@, t as int, material),
            vdot(r@.direction, rec@.normal) <= 0,
    {
        let front_face = Vec3::dot(&r.direction(), &outward_normal) < 0;
        let normal = if front_face {
            outward_normal
        } else {
            proof {
                lemma_vdot_neg(r@.direction, outward_normal@);
            }
            outward_normal.neg()
        };
        HitRecord { p, normal, t, front_face, material }
    }
}

/// The capability of being intersected by a ray.
pub trait Hittable {
    /// The surface's own data lies inside the bounds its intersection
    /// arithmetic is proved for.
    spec fn surface_wf(&self) -> bool;

    /// The mathematical result of intersecting the surface with `r` over
    /// the open interval `(t_min, t_max)`.
    spec fn spec_hit(&self, r: RayV, t_min: int, t_max: int) -> Option<HitRecV>;

    /// Intersect with `r`: the returned record, if any, is the surface's
    /// hit nearest the origin with parameter strictly inside
    /// `(t_min, t_max)`, its normal opposing the ray.
    fn hit(&self, r: &Ray, t_min: i64, t_max: i64) -> (res: Option<HitRecord>)
        requires
            self.surface_wf(),
            ray_wf(r@),
            1 <= t_min <= t_max <= TLIM,
        ensures
            view_opt(res) == self.spec_hit(r@, t_min as int, t_max as int),
            res matches Some(rec) ==> {
                &&& rec_wf(rec@)
                &&& t_min < rec.t < t_max
                &&& vdot(r@.direction, rec@.normal) <= 0
            },
    ;
}

/// The closest hit among the spheres of `objs`, scanned left to right with
/// a shrinking upper bound.
pub open spec fn spec_list_hit(objs: Seq<Sphere>, r: RayV, t_min: int, t_max: int) -> Option<
    HitRecV,
>
    decreases objs.len(),
{
    if objs.len() == 0 {
        None
    } else {
        let prefix = spec_list_hit(objs.drop_last(), r, t_min, t_max);
        let closest = match prefix {
            Some(rec) => rec.t,
            None => t_max,
        };
        match spec_sphere_hit(objs.last(), r, t_min, closest) {
            Some(rec) => Some(rec),
            None => prefix,
        }
    }
}

/// A scene: the collection of spheres a ray is tested against.
#[derive(Clone, Debug)]
pub struct HittableList {
    pub objects: Vec<Sphere>,
}

impl HittableList {
    /// An empty scene.
    pub fn new() -> (w: HittableList)
        ensures
            w.objects@ =~= Seq::<Sphere>::empty(),
    {
        HittableList { objects: Vec::new() }
    }

    /// Remove every surface.
    pub fn clear(&mut self)
        ensures
            final(self).objects@ =~= Seq::<Sphere>::empty(),
    {
        self.objects.clear();
    }

    /// Add a surface to the scene.
    pub fn add(&mut self, object: Sphere)
        ensures
            final(self).objects@ =~= old(self).objects@.push(object),
    {
        self.objects.push(object);
    }
}

impl Hittable for HittableList {
    /// Every sphere of the scene is well-formed.
    open spec fn surface_wf(&self) -> bool {
        forall|i: int|
            0 <= i < self.objects@.len() ==> (#[trigger] self.objects@[i]).surface_wf()
    }

    open spec fn spec_hit(&self, r: RayV, t_min: int, t_max: int) -> Option<HitRecV> {
        spec_list_hit(self.objects@, r, t_min, t_max)
    }

    /// Test every sphere, keeping the record of the nearest hit.
    fn hit(&self, r: &Ray, t_min: i64, t_max: i64) -> (res: Option<HitRecord>) {
        let mut best: Option<HitRecord> = None;
        let mut closest_so_far: i64 = t_max;
        let n = self.objects.len();
        let mut i: usize = 0;
        while i < n
            invariant
                n == self.objects@.len(),
                0 <= i <= n,
                self.surface_wf(),
                ray_wf(r@),
                1 <= t_min <= t_max <= TLIM,
                view_opt(best) == spec_list_hit(
                    self.objects@.take(i as int),
                    r@,
                    t_min as int,
                    t_max as int,
                ),
                closest_so_far as int == match view_opt(best) {
                    Some(rec) => rec.t,
                    None => t_max as int,
                },
                best matches Some(rec) ==> {
                    &&& rec_wf(rec@)
                    &&& t_min < rec.t < t_max
                    &&& vdot(r@.direction, rec@.normal) <= 0
                },
            decreases n - i,
        {
            proof {
                assert(self.objects@[i as int].surface_wf());
            }
            let candidate = self.objects[i].hit(r, t_min, closest_so_far);
            proof {
                assert(self.objects@.take(i as int + 1).drop_last() =~= self.objects@.take(
                    i as int,
                ));
                assert(self.objects@.take(i as int + 1).last() == self.objects@[i as int]);
            }
            if let Some(rec) = candidate {
                best = Some(rec);
                closest_so_far = rec.t;
            }
            i = i + 1;
        }
        proof {
            assert(self.objects@.take(n as int) =~= self.objects@);
        }
        best
    }
}

} // verus!
