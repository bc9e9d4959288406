use crate::camera::{camera_wf, spec_get_ray, Camera, CameraV};
use crate::fixed::{
    div_fx, fxdiv, fxmul, lemma_tdiv_exact, lemma_tdiv_mono, lemma_tdiv_nonincreasing, tdiv,
};
use crate::hit::{spec_list_hit, Hittable, HittableList};
use crate::material::possible_scatter;
use crate::ray::{ray_wf, Ray, RayV, TLIM};
use crate::rng::{random_scalar, rng_from_seed};
use crate::sphere::Sphere;
use crate::vec3::{bounded3, vadd, vlen_sq, vmul, vscale, vunit, Color, Vec3, V3};
use vstd::arithmetic::div_mod::lemma_fundamental_div_mod_converse;
use rand::rngs::StdRng;
use vstd::prelude::*;

verus! {

/// The shadow-acne epsilon: the least ray parameter a bounce may hit at,
/// about a thousandth of a world unit.
pub const T_EPS: i64 = 65;

/// A color whose channels all lie in `[0, limit]`.
pub open spec fn channels_in(c: V3, limit: int) -> bool {
    &&& 0 <= c.x <= limit
    &&& 0 <= c.y <= limit
    &&& 0 <= c.z <= limit
}

/// The background gradient: white at the bottom of the direction sphere
/// blending to sky blue at the top, by the normalized `y` component (the
/// blend parameter clamped defensively into `[0, 1]`).
pub open spec fn spec_background(dir: V3) -> V3 {
    let unit = vunit(dir);
    let t = crate::fixed::spec_clamp(tdiv(unit.y + 65536, 2), 0, 65536);
    vadd(
        vscale(V3 { x: 65536int, y: 65536int, z: 65536int }, 65536 - t),
        vscale(V3 { x: 32768int, y: 45875int, z: 65536int }, t),
    )
}

/// A product of two unit-interval scalars stays in the unit interval.
pub proof fn lemma_unit_interval_mul(a: int, b: int)
    requires
        0 <= a <= 65536,
        0 <= b <= 65536,
    ensures
        0 <= fxmul(a, b) <= 65536,
{
    assert(0 <= a * b <= 65536int * 65536) by (nonlinear_arith)
        requires
            0 <= a <= 65536,
            0 <= b <= 65536,
    ;
    lemma_tdiv_nonincreasing(a * b, 65536);
    lemma_tdiv_mono(a * b, 65536int * 65536, 65536);
    lemma_tdiv_exact(65536int, 65536);
}

/// The background color lies in the radiance unit box.
pub proof fn lemma_background_bounded(dir: V3)
    ensures
        channels_in(spec_background(dir), 65536),
{
    let unit = vunit(dir);
    let t = crate::fixed::spec_clamp(tdiv(unit.y + 65536, 2), 0, 65536);
    lemma_tdiv_exact(65536 - t, 65536);
    assert((65536 - t) * 65536 == 65536 * (65536 - t)) by (nonlinear_arith);
    lemma_unit_interval_mul(32768, t);
    lemma_unit_interval_mul(45875, t);
    lemma_unit_interval_mul(65536, t);
    lemma_unit_interval_mul(65536, 65536 - t);
}

/// The background gradient evaluated for a ray direction.
fn background(direction: &Vec3) -> (c: Color)
    requires
        bounded3(direction@, crate::vec3::VLIM as int),
    ensures
        c@ == spec_background(direction@),
        channels_in(c@, 65536),
{
    let unit = Vec3::unit_vector(*direction);
    let t = crate::fixed::clamp((unit.y + 65536) / 2, 0, 65536);
    proof {
        crate::vec3::lemma_vunit_bounded(direction@);
        lemma_background_bounded(direction@);
        lemma_tdiv_exact(65536 - t as int, 65536);
        assert((65536 - t as int) * 65536 == 65536 * (65536 - t as int)) by (nonlinear_arith);
        lemma_unit_interval_mul(32768, t as int);
        lemma_unit_interval_mul(45875, t as int);
        lemma_unit_interval_mul(65536, t as int);
        lemma_unit_interval_mul(65536, 65536 - t as int);
    }
    let one_minus = 65536 - t;
    let r = crate::fixed::mul_fx(65536, one_minus) + crate::fixed::mul_fx(32768, t);
    let g = crate::fixed::mul_fx(65536, one_minus) + crate::fixed::mul_fx(45875, t);
    let b = crate::fixed::mul_fx(65536, one_minus) + crate::fixed::mul_fx(65536, t);
    Color::new(r, g, b)
}

/// One possible radiance estimate for a ray against the scene: black
/// once the bounce budget is exhausted; the background gradient where
/// nothing is hit; after a hit, either black (a rough metal absorbing the
/// ray) or a possible scatter's attenuation times a possible estimate for
/// the scattered ray.
pub open spec fn possible_radiance(objs: Seq<Sphere>, r: RayV, depth: int, c: V3) -> bool
    decreases depth,
{
    if depth <= 0 {
        c == (V3 { x: 0int, y: 0int, z: 0int })
    } else {
        match spec_list_hit(objs, r, 65, 68719476736) {
            None => c == spec_background(r.direction),
            Some(rec) => (rec.material is Metal && c == (V3 { x: 0int, y: 0int, z: 0int }))
                || (exists|att: V3, sc: RayV, b: V3|
                #![trigger possible_scatter(rec.material, r, rec, att, sc), vmul(att, b)]
                {
                    &&& possible_scatter(rec.material, r, rec, att, sc)
                    &&& possible_radiance(objs, sc, depth - 1, b)
                    &&& c == vmul(att, b)
                }),
        }
    }
}

/// The recursive radiance estimate for one ray: black once the bounce
/// budget is exhausted, the attenuated recursive estimate after a
/// scattered hit, black after an absorbed hit, and the background
/// gradient where nothing is hit.
pub fn ray_color(r: &Ray, world: &HittableList, depth: i32, rng: &mut StdRng) -> (c: Color)
    requires
        world.surface_wf(),
        ray_wf(r@),
    ensures
        channels_in(c@, 65536),
        possible_radiance(world.objects@, r@, depth as int, c@),
        depth <= 0 ==> c@ == (V3 { x: 0int, y: 0int, z: 0int }),
        depth > 0 && spec_list_hit(world.objects@, r@, T_EPS as int, TLIM as int) is None ==> c@
            == spec_background(r@.direction),
    decreases depth,
{
    if depth <= 0 {
        let black = Color::new(0, 0, 0);
        proof {
            assert(possible_radiance(world.objects@, r@, depth as int, black@));
        }
        return black;
    }
    match world.hit(r, T_EPS, TLIM) {
        Some(rec) => {
            match rec.material.scatter(r, &rec, rng) {
                Some((attenuation, scattered)) => {
                    let bounced = ray_color(&scattered, world, depth - 1, rng);
                    proof {
                        lemma_unit_interval_mul(attenuation@.x, bounced@.x);
                        lemma_unit_interval_mul(attenuation@.y, bounced@.y);
                        lemma_unit_interval_mul(attenuation@.z, bounced@.z);
                    }
                    let result = attenuation.mul(bounced);
                    proof {
                        assert(spec_list_hit(world.objects@, r@, 65, 68719476736) == Some(rec@));
                        assert(possible_scatter(rec@.material, r@, rec@, attenuation@, scattered@)
                            && possible_radiance(
                            world.objects@,
                            scattered@,
                            depth as int - 1,
                            bounced@,
                        ) && result@ == vmul(attenuation@, bounced@));
                        assert(possible_radiance(world.objects@, r@, depth as int, result@));
                    }
                    result
                },
                None => {
                    let black = Color::new(0, 0, 0);
                    proof {
                        assert(rec.material is Metal);
                        assert(possible_radiance(world.objects@, r@, depth as int, black@));
                    }
                    black
                },
            }
        },
        None => {
            let bg = background(&r.direction());
            proof {
                assert(possible_radiance(world.objects@, r@, depth as int, bg@));
            }
            bg
        },
    }
}

/// The normalized viewport coordinate of `index` among `extent` pixels,
/// perturbed by the sub-pixel jitter `jit`: `(index + jit) / (extent - 1)`
/// in fixed point.
pub open spec fn jittered_coord(index: int, extent: int, jit: int) -> int {
    fxdiv(index * 65536 + jit, (extent - 1) * 65536)
}

/// `u` is a jittered viewport coordinate of pixel `index`.
pub open spec fn sample_coord(index: int, extent: int, u: int) -> bool {
    exists|jit: int| 0 <= jit < 65536 && u == #[trigger] jittered_coord(index, extent, jit)
}

/// One possible radiance sample for pixel `(i, j)` of a `w` by `h` image:
/// some sub-pixel jitter for each coordinate, some lens-disk point, and a
/// possible integrator outcome for the camera ray they define.
pub open spec fn possible_pixel_sample(
    cam: CameraV,
    objs: Seq<Sphere>,
    i: int,
    j: int,
    w: int,
    h: int,
    depth: int,
    c: V3,
) -> bool {
    exists|u: int, v: int, rd: V3|
        #![trigger spec_get_ray(cam, u, v, rd)]
        {
            &&& sample_coord(i, w, u)
            &&& sample_coord(j, h, v)
            &&& vlen_sq(rd) < 65536
            &&& rd.z == 0
            &&& bounded3(rd, 65536)
            &&& possible_radiance(objs, spec_get_ray(cam, u, v, rd), depth, c)
        }
}

/// A sum of `n` possible radiance samples for pixel `(i, j)`.
pub open spec fn possible_pixel_sum(
    cam: CameraV,
    objs: Seq<Sphere>,
    i: int,
    j: int,
    w: int,
    h: int,
    depth: int,
    n: int,
    c: V3,
) -> bool
    decreases n,
{
    if n <= 0 {
        c == (V3 { x: 0int, y: 0int, z: 0int })
    } else {
        exists|c1: V3, c2: V3|
            #![trigger possible_pixel_sample(cam, objs, i, j, w, h, depth, c1), vadd(c2, c1)]
            {
                &&& possible_pixel_sample(cam, objs, i, j, w, h, depth, c1)
                &&& possible_pixel_sum(cam, objs, i, j, w, h, depth, n - 1, c2)
                &&& c == vadd(c2, c1)
            }
    }
}

/// One scanline of sample-summed pixels, left to right.
pub fn render_scanline(
    camera: &Camera,
    world: &HittableList,
    j: i32,
    image_width: i32,
    image_height: i32,
    samples_per_pixel: i32,
    max_depth: i32,
    rng: &mut StdRng,
) -> (row: Vec<Color>)
    requires
        camera_wf(camera@),
        world.surface_wf(),
        0 <= j < image_height,
        2 <= image_width <= 65536,
        2 <= image_height <= 65536,
        1 <= samples_per_pixel <= 100000,
        0 <= max_depth,
    ensures
        row@.len() == image_width as int,
        forall|k: int|
            0 <= k < row@.len() ==> channels_in(
                (#[trigger] row@[k])@,
                (samples_per_pixel as int) * 65536,
            ),
        forall|k: int|
            0 <= k < row@.len() ==> possible_pixel_sum(
                camera@,
                world.objects@,
                k,
                j as int,
                image_width as int,
                image_height as int,
                max_depth as int,
                samples_per_pixel as int,
                (#[trigger] row@[k])@,
            ),
{
    let mut row: Vec<Color> = Vec::new();
    let mut i: i32 = 0;
    while i < image_width
        invariant
            camera_wf(camera@),
            world.surface_wf(),
            0 <= j < image_height,
            2 <= image_width <= 65536,
            2 <= image_height <= 65536,
            1 <= samples_per_pixel <= 100000,
            0 <= max_depth,
            0 <= i <= image_width,
            row@.len() == i as int,
            forall|k: int|
                0 <= k < row@.len() ==> channels_in(
                    (#[trigger] row@[k])@,
                    (samples_per_pixel as int) * 65536,
                ),
            forall|k: int|
                0 <= k < row@.len() ==> possible_pixel_sum(
                    camera@,
                    world.objects@,
                    k,
                    j as int,
                    image_width as int,
                    image_height as int,
                    max_depth as int,
                    samples_per_pixel as int,
                    (#[trigger] row@[k])@,
                ),
        decreases image_width - i,
    {
        let mut pixel_color = Color::new(0, 0, 0);
        let mut s: i32 = 0;
        while s < samples_per_pixel
            invariant
                camera_wf(camera@),
                world.surface_wf(),
                0 <= j < image_height,
                2 <= image_width <= 65536,
                2 <= image_height <= 65536,
                1 <= samples_per_pixel <= 100000,
                0 <= max_depth,
                0 <= i < image_width,
                0 <= s <= samples_per_pixel,
                channels_in(pixel_color@, (s as int) * 65536),
                possible_pixel_sum(
                    camera@,
                    world.objects@,
                    i as int,
                    j as int,
                    image_width as int,
                    image_height as int,
                    max_depth as int,
                    s as int,
                    pixel_color@,
                ),
            decreases samples_per_pixel - s,
        {
            let u = viewport_coord(i, image_width, rng);
            let v = viewport_coord(j, image_height, rng);
            let r = camera.get_ray(u, v, rng);
            let sample = ray_color(&r, world, max_depth, rng);
            let ghost prev = pixel_color@;
            pixel_color = pixel_color.add(sample);
            proof {
                let rd = choose|rd: V3|
                    {
                        &&& vlen_sq(rd) < 65536
                        &&& rd.z == 0
                        &&& bounded3(rd, 65536)
                        &&& #[trigger] spec_get_ray(camera@, u as int, v as int, rd) == r@
                    };
                assert(possible_radiance(
                    world.objects@,
                    spec_get_ray(camera@, u as int, v as int, rd),
                    max_depth as int,
                    sample@,
                ));
                assert(possible_pixel_sample(
                    camera@,
                    world.objects@,
                    i as int,
                    j as int,
                    image_width as int,
                    image_height as int,
                    max_depth as int,
                    sample@,
                ));
                assert(pixel_color@ == vadd(prev, sample@));
                assert(possible_pixel_sum(
                    camera@,
                    world.objects@,
                    i as int,
                    j as int,
                    image_width as int,
                    image_height as int,
                    max_depth as int,
                    s as int + 1,
                    pixel_color@,
                ));
            }
            s = s + 1;
        }
        row.push(pixel_color);
        i = i + 1;
    }
    row
}

/// The jittered normalized viewport coordinate `(index + random) / (extent
/// - 1)`, which stays within twice the unit interval.
fn viewport_coord(index: i32, extent: i32, rng: &mut StdRng) -> (c: i64)
    requires
        0 <= index < extent,
        2 <= extent <= 65536,
    ensures
        0 <= c <= 131072,
        sample_coord(index as int, extent as int, c as int),
{
    let jitter = random_scalar(rng);
    let numer: i64 = (index as i64) * 65536 + jitter;
    let denom: i64 = ((extent - 1) as i64) * 65536;
    proof {
        let m = (extent - 1) as int;
        assert(numer as int * 65536 <= 131072 * (m * 65536)) by (nonlinear_arith)
            requires
                numer as int <= (m + 1) * 65536,
                1 <= m,
                numer as int * 65536 == (numer as int) * 65536,
        ;
        lemma_tdiv_exact(131072int, m * 65536);
        lemma_tdiv_mono(numer as int * 65536, 131072 * (m * 65536), m * 65536);
        lemma_tdiv_nonincreasing(numer as int * 65536, m * 65536);
    }
    let c = div_fx(numer, denom);
    proof {
        assert(c as int == jittered_coord(index as int, extent as int, jitter as int));
    }
    c
}

/// The whole image as sample-summed pixels in row-major order, top row
/// first. Each row is rendered with its own generator seeded from the
/// base seed and the row number, so the image is a deterministic function
/// of the arguments and rows can be computed in any order.
pub fn render(
    camera: &Camera,
    world: &HittableList,
    image_width: i32,
    image_height: i32,
    samples_per_pixel: i32,
    max_depth: i32,
    seed: u64,
) -> (image: Vec<Color>)
    requires
        camera_wf(camera@),
        world.surface_wf(),
        2 <= image_width <= 65536,
        2 <= image_height <= 65536,
        1 <= samples_per_pixel <= 100000,
        0 <= max_depth,
    ensures
        image@.len() == (image_width as int) * (image_height as int),
        forall|k: int|
            0 <= k < image@.len() ==> channels_in(
                (#[trigger] image@[k])@,
                (samples_per_pixel as int) * 65536,
            ),
        forall|k: int|
            0 <= k < image@.len() ==> possible_pixel_sum(
                camera@,
                world.objects@,
                k % (image_width as int),
                (image_height as int) - 1 - k / (image_width as int),
                image_width as int,
                image_height as int,
                max_depth as int,
                samples_per_pixel as int,
                (#[trigger] image@[k])@,
            ),
{
    let mut image: Vec<Color> = Vec::new();
    let mut jj: i32 = 0;
    proof {
        assert(0int * (image_width as int) == 0) by (nonlinear_arith);
    }
    while jj < image_height
        invariant
            camera_wf(camera@),
            world.surface_wf(),
            2 <= image_width <= 65536,
            2 <= image_height <= 65536,
            1 <= samples_per_pixel <= 100000,
            0 <= max_depth,
            0 <= jj <= image_height,
            image@.len() == (jj as int) * (image_width as int),
            forall|k: int|
                0 <= k < image@.len() ==> channels_in(
                    (#[trigger] image@[k])@,
                    (samples_per_pixel as int) * 65536,
                ),
            forall|k: int|
                0 <= k < image@.len() ==> possible_pixel_sum(
                    camera@,
                    world.objects@,
                    k % (image_width as int),
                    (image_height as int) - 1 - k / (image_width as int),
                    image_width as int,
                    image_height as int,
                    max_depth as int,
                    samples_per_pixel as int,
                    (#[trigger] image@[k])@,
                ),
        decreases image_height - jj,
    {
        let j = image_height - 1 - jj;
        let mut rng = rng_from_seed(seed.wrapping_add(j as u64));
        let mut row = render_scanline(
            camera,
            world,
            j,
            image_width,
            image_height,
            samples_per_pixel,
            max_depth,
            &mut rng,
        );
        proof {
            assert((jj as int + 1) * (image_width as int) == (jj as int) * (image_width as int)
                + image_width as int) by (nonlinear_arith);
        }
        let ghost prefix_len = image@.len() as int;
        image.append(&mut row);
        proof {
            let w = image_width as int;
            assert forall|k: int| 0 <= k < image@.len() implies possible_pixel_sum(
                camera@,
                world.objects@,
                k % w,
                (image_height as int) - 1 - k / w,
                image_width as int,
                image_height as int,
                max_depth as int,
                samples_per_pixel as int,
                (#[trigger] image@[k])@,
            ) by {
                if k >= prefix_len {
                    lemma_fundamental_div_mod_converse(k, w, jj as int, k - prefix_len);
                }
            }
        }
        jj = jj + 1;
    }
    proof {
        assert((image_height as int) * (image_width as int) == (image_width as int) * (
        image_height as int)) by (nonlinear_arith);
    }
    image
}

} // verus!
