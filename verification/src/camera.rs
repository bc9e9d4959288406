use crate::fixed::{
    clamp, degrees_to_radians, div_fx, fxdiv, fxmul, lemma_fxdiv_bounded, lemma_tdiv_bounded,
    lemma_tdiv_nonincreasing, mul_fx, sin_quarter, spec_clamp, spec_degrees_to_radians,
    spec_sin_quarter, tdiv, HALF_PI,
};
use crate::ray::{ray_wf, Ray, RayV};
use crate::vec3::{
    bounded3, lemma_abs_product, lemma_cross_bounded, lemma_scale_bounded, lemma_vunit_bounded,
    vadd, vcross, vdivs, vlen_sq, vscale, vsub, vunit, Point3, Vec3, V3,
};
use rand::rngs::StdRng;
use vstd::prelude::*;

verus! {

/// The mathematical model of a camera.
pub ghost struct CameraV {
    pub origin: V3,
    pub lower_left_corner: V3,
    pub horizontal: V3,
    pub vertical: V3,
    pub u: V3,
    pub v: V3,
    pub w: V3,
    pub lens_radius: int,
}

/// A camera: an orthonormal-ish viewing basis and a viewport, derived once
/// from a view specification, plus a lens radius for depth of field.
#[derive(Clone, Copy, Debug)]
pub struct Camera {
    pub origin: Point3,
    pub lower_left_corner: Point3,
    pub horizontal: Vec3,
    pub vertical: Vec3,
    pub u: Vec3,
    pub v: Vec3,
    pub w: Vec3,
    pub lens_radius: i64,
}

impl View for Camera {
    type V = CameraV;

    open spec fn view(&self) -> CameraV {
        CameraV {
            origin: self.origin@,
            lower_left_corner: self.lower_left_corner@,
            horizontal: self.horizontal@,
            vertical: self.vertical@,
            u: self.u@,
            v: self.v@,
            w: self.w@,
            lens_radius: self.lens_radius as int,
        }
    }
}

/// The camera's derived fields are inside the bounds ray generation is
/// proved for.
pub open spec fn camera_wf(c: CameraV) -> bool {
    &&& bounded3(c.origin, 2097152)
    &&& bounded3(c.lower_left_corner, 8912896)
    &&& bounded3(c.horizontal, 4194304)
    &&& bounded3(c.vertical, 4194304)
    &&& bounded3(c.u, 131072)
    &&& bounded3(c.v, 131072)
    &&& bounded3(c.w, 131072)
    &&& 0 <= c.lens_radius <= 65536
}

/// The camera derived from a view specification: the half-height of the
/// viewport is the tangent of half the vertical field of view (clamped
/// defensively at eight world units, reached only for a field of view
/// close to a straight angle), the viewing basis is built from the two
/// cross products, and the viewport is scaled by the focus distance (the
/// two scale factors clamped defensively at thirty-two world units).
/// The third basis vector `v` is normalized as well: in exact arithmetic
/// the cross product of the two unit vectors is already unit, so the
/// extra normalization only corrects fixed-point drift and keeps the
/// basis inside the bounds ray generation is proved for.
pub open spec fn spec_camera(
    lookfrom: V3,
    lookat: V3,
    vup: V3,
    vfov: int,
    aspect_ratio: int,
    aperture: int,
    focus_dist: int,
) -> CameraV {
    let theta = spec_degrees_to_radians(vfov);
    let half_theta = tdiv(theta, 2);
    let sin_h = spec_sin_quarter(half_theta);
    let cos_raw = spec_sin_quarter(102944 - half_theta);
    let cos_g = if cos_raw < 1 {
        1
    } else {
        cos_raw
    };
    let h = spec_clamp(fxdiv(sin_h, cos_g), 0, 524288);
    let viewport_height = 2 * h;
    let viewport_width = fxmul(aspect_ratio, viewport_height);
    let w = vunit(vsub(lookfrom, lookat));
    let u = vunit(vcross(vup, w));
    let v = vunit(vcross(w, u));
    let s_h = spec_clamp(fxmul(focus_dist, viewport_width), 0, 2097152);
    let s_v = spec_clamp(fxmul(focus_dist, viewport_height), 0, 2097152);
    let horizontal = vscale(u, s_h);
    let vertical = vscale(v, s_v);
    let lower_left_corner = vsub(
        vsub(vsub(lookfrom, vdivs(horizontal, 131072)), vdivs(vertical, 131072)),
        vscale(w, focus_dist),
    );
    CameraV {
        origin: lookfrom,
        lower_left_corner,
        horizontal,
        vertical,
        u,
        v,
        w,
        lens_radius: tdiv(aperture, 2),
    }
}

/// The ray through normalized viewport coordinates `(s, t)`, jittered on
/// the lens disk by `rd`.
pub open spec fn spec_get_ray(c: CameraV, s: int, t: int, rd: V3) -> RayV {
    let scaled_rd = vscale(rd, c.lens_radius);
    let offset = vadd(vscale(c.u, scaled_rd.x), vscale(c.v, scaled_rd.y));
    RayV {
        origin: vadd(c.origin, offset),
        direction: vsub(
            vsub(
                vadd(vadd(c.lower_left_corner, vscale(c.horizontal, s)), vscale(c.vertical, t)),
                c.origin,
            ),
            offset,
        ),
    }
}

impl Camera {
    /// Build a camera from eye and look-at points, an up vector, a
    /// vertical field of view in degrees, and the aspect ratio, aperture
    /// and focus distance. A view with coincident eye and target is a
    /// caller error and excluded; an up vector parallel to the view axis
    /// is also a caller error, against which the normalization guard
    /// yields a zeroed basis vector instead of dividing by zero.
    pub fn new(
        lookfrom: Point3,
        lookat: Point3,
        vup: Vec3,
        vfov: i64,
        aspect_ratio: i64,
        aperture: i64,
        focus_dist: i64,
    ) -> (cam: Camera)
        requires
            bounded3(lookfrom@, 2097152),
            bounded3(lookat@, 2097152),
            vlen_sq(vsub(lookfrom@, lookat@)) >= 1,
            bounded3(vup@, 262144),
            0 <= vfov <= 11796480,
            0 <= aspect_ratio <= 16777216,
            0 <= aperture <= 131072,
            1 <= focus_dist <= 1310720,
        ensures
            cam@ == spec_camera(
                lookfrom@,
                lookat@,
                vup@,
                vfov as int,
                aspect_ratio as int,
                aperture as int,
                focus_dist as int,
            ),
            camera_wf(cam@),
    {
        let theta = degrees_to_radians(vfov);
        proof {
            lemma_tdiv_bounded(vfov as int * 205887, 11796480, 11796480int * 205887);
            lemma_tdiv_nonincreasing(vfov as int * 205887, 11796480);
            assert(0 <= vfov as int * 205887);
            lemma_tdiv_nonincreasing(theta as int, 2);
            assert(tdiv(11796480int * 205887, 11796480) == 205887int) by {
                crate::fixed::lemma_tdiv_exact(205887int, 11796480);
            }
            crate::fixed::lemma_tdiv_mono(vfov as int * 205887, 11796480int * 205887, 11796480);
            crate::fixed::lemma_tdiv_mono(theta as int, 205887, 2);
        }
        let half_theta = theta / 2;
        let sin_h = sin_quarter(half_theta);
        let cos_raw = sin_quarter(HALF_PI - half_theta);
        let cos_g = if cos_raw < 1 {
            1
        } else {
            cos_raw
        };
        proof {
            lemma_fxdiv_bounded(sin_h as int, 65536, 131072);
        }
        let h = clamp(div_fx(sin_h, cos_g), 0, 524288);
        let viewport_height = 2 * h;
        proof {
            lemma_abs_product(aspect_ratio as int, viewport_height as int, 16777216, 1048576);
            lemma_tdiv_bounded(
                (aspect_ratio as int) * (viewport_height as int),
                65536,
                16777216int * 1048576,
            );
        }
        let viewport_width = mul_fx(aspect_ratio, viewport_height);
        proof {
            lemma_vunit_bounded(vsub(lookfrom@, lookat@));
        }
        let w = Vec3::unit_vector(lookfrom.sub(lookat));
        proof {
            lemma_cross_bounded(vup@, w@, 262144, 131072);
            lemma_vunit_bounded(vcross(vup@, w@));
        }
        let u = Vec3::unit_vector(Vec3::cross(&vup, &w));
        proof {
            lemma_cross_bounded(w@, u@, 131072, 131072);
            lemma_vunit_bounded(vcross(w@, u@));
        }
        let v = Vec3::unit_vector(Vec3::cross(&w, &u));
        proof {
            lemma_abs_product(focus_dist as int, viewport_width as int, 1310720, 268435456);
            lemma_tdiv_bounded(
                (focus_dist as int) * (viewport_width as int),
                65536,
                1310720int * 268435456,
            );
            lemma_abs_product(focus_dist as int, viewport_height as int, 1310720, 1048576);
            lemma_tdiv_bounded(
                (focus_dist as int) * (viewport_height as int),
                65536,
                1310720int * 1048576,
            );
        }
        let s_h = clamp(mul_fx(focus_dist, viewport_width), 0, 2097152);
        let s_v = clamp(mul_fx(focus_dist, viewport_height), 0, 2097152);
        proof {
            lemma_scale_bounded(u@, s_h as int, 131072, 2097152);
            lemma_scale_bounded(v@, s_v as int, 131072, 2097152);
            lemma_scale_bounded(w@, focus_dist as int, 131072, 1310720);
        }
        let horizontal = u.scale(s_h);
        let vertical = v.scale(s_v);
        let origin = lookfrom;
        let lower_left_corner = origin.sub(horizontal.div(131072)).sub(vertical.div(131072)).sub(
            w.scale(focus_dist),
        );
        proof {
            crate::fixed::lemma_fxdiv_bounded(horizontal@.x, 131072, 4194304);
            crate::fixed::lemma_fxdiv_bounded(horizontal@.y, 131072, 4194304);
            crate::fixed::lemma_fxdiv_bounded(horizontal@.z, 131072, 4194304);
            crate::fixed::lemma_fxdiv_bounded(vertical@.x, 131072, 4194304);
            crate::fixed::lemma_fxdiv_bounded(vertical@.y, 131072, 4194304);
            crate::fixed::lemma_fxdiv_bounded(vertical@.z, 131072, 4194304);
            lemma_tdiv_nonincreasing(aperture as int, 2);
        }
        let lens_radius = aperture / 2;
        Camera {
            origin,
            lower_left_corner,
            horizontal,
            vertical,
            u,
            v,
            w,
            lens_radius,
        }
    }

    /// The ray through normalized viewport coordinates `(s, t)`, from a
    /// random point on the lens disk.
    pub fn get_ray(&self, s: i64, t: i64, rng: &mut StdRng) -> (r: Ray)
        requires
            camera_wf(self@),
            0 <= s <= 131072,
            0 <= t <= 131072,
        ensures
            ray_wf(r@),
            exists|rd: V3|
                {
                    &&& vlen_sq(rd) < 65536
                    &&& rd.z == 0
                    &&& bounded3(rd, 65536)
                    &&& #[trigger] spec_get_ray(self@, s as int, t as int, rd) == r@
                },
    {
        let disk = Vec3::random_in_unit_disk(rng);
        proof {
            lemma_scale_bounded(disk@, self@.lens_radius, 65536, 65536);
        }
        let rd = disk.scale(self.lens_radius);
        proof {
            lemma_scale_bounded(self@.u, rd@.x, 131072, 65536);
            lemma_scale_bounded(self@.v, rd@.y, 131072, 65536);
        }
        let offset = self.u.scale(rd.x).add(self.v.scale(rd.y));
        proof {
            lemma_scale_bounded(self@.horizontal, s as int, 4194304, 131072);
            lemma_scale_bounded(self@.vertical, t as int, 4194304, 131072);
        }
        let direction = self.lower_left_corner.add(self.horizontal.scale(s)).add(
            self.vertical.scale(t),
        ).sub(self.origin).sub(offset);
        let r = Ray::new(self.origin.add(offset), direction);
        proof {
            assert(spec_get_ray(self@, s as int, t as int, disk@) == r@);
        }
        r
    }
}

} // verus!
