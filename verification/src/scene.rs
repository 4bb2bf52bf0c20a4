//! The scene: primitives, camera and sky, and the path-tracing renderer.

use vstd::prelude::*;

use std::sync::Arc;

use crate::camera::cam_wf;
use crate::camera::Camera;
use crate::color::cbounded;
use crate::color::Color;
use crate::fixed::clamp;
use crate::fixed::div_t;
use crate::fixed::fsqrt;
use crate::fixed::iabs;
use crate::fixed::lemma_div_le;
use crate::fixed::lemma_div_mono;
use crate::fixed::lemma_root_lt;
use crate::fixed::tdiv;
use crate::fixed::SCALE;
use crate::geometry::ray::ray_wf;
use crate::geometry::ray::Ray;
use crate::geometry::ray::T_MAX;
use crate::geometry::vec3::len_sq_spec;
use crate::geometry::vec3::vbounded;
use crate::geometry::vec3::Vec3;
use crate::geometry::vec3::WORLD_MAX;
use crate::geometry::Point;
use crate::image::image_wf;
use crate::image::Image;
use crate::material::mat_wf;
use crate::material::share;
use crate::material::Dielectric;
use crate::material::Lambertian;
use crate::material::Material;
use crate::material::Metal;
use crate::object::bvh::node_wf;
use crate::object::bvh::prims_wf;
use crate::object::bvh::BvhTree;
use crate::object::bvh::Primitive;
use crate::object::planar::InfinitePlane;
use crate::object::planar::Tri;
use crate::object::sphere::Sphere;
use crate::object::visible::hit_wf;
use crate::object::visible::list_wf;
use crate::object::visible::VisibleHit;
use crate::object::visible::VisibleList;
use crate::rng::rand_range;
use crate::rng::rand_word;
use crate::rng::rng_from_entropy;
use crate::rng::rng_from_seed;
use crate::sky::sky_wf;
use crate::sky::Sky;
use crate::sky::Uniform;

verus! {

/// How far along a ray a hit must lie before it counts, so a scattered
/// ray cannot strike its own origin surface again.
pub const HIT_TOLERANCE: i64 = 100;

/// A scene: the accelerated primitives, the objects without bounding
/// boxes, the camera and the background.
pub struct Scene {
    pub primitives: Vec<Arc<Primitive>>,
    pub objects: VisibleList,
    pub camera: Camera,
    pub sky: Sky,
}

/// Everything a stored scene guarantees its renderer.
pub open spec fn scene_wf(s: Scene) -> bool {
    &&& prims_wf(s.primitives@)
    &&& s.primitives@.len() <= 0x1000_0000
    &&& list_wf(s.objects)
    &&& cam_wf(s.camera)
    &&& sky_wf(s.sky)
}

impl Scene {
    /// An empty scene with the default camera and a white background.
    pub fn new() -> (s: Scene)
        ensures
            scene_wf(s),
            s.primitives@.len() == 0,
            s.objects.objects@.len() == 0,
    {
        Self {
            objects: VisibleList::new(),
            primitives: Vec::new(),
            camera: Camera::default_camera(),
            sky: Sky::Uniform(Uniform::new(Color::white())),
        }
    }

    /// Adds a sphere to the accelerated primitives.
    pub fn sphere(&mut self, center: Point<i64>, radius: i64, material: &Arc<Material>)
        requires
            scene_wf(*old(self)),
            old(self).primitives@.len() < 0x1000_0000,
            1 <= radius <= WORLD_MAX,
            iabs(center.0.x as int) + radius <= WORLD_MAX,
            iabs(center.0.y as int) + radius <= WORLD_MAX,
            iabs(center.0.z as int) + radius <= WORLD_MAX,
            mat_wf(**material),
        ensures
            scene_wf(*final(self)),
            final(self).primitives@.len() == old(self).primitives@.len() + 1,
            final(self).objects == old(self).objects,
            final(self).camera == old(self).camera,
            final(self).sky == old(self).sky,
    {
        let sphere = Sphere::new(center, radius, share(material));
        self.primitives.push(Arc::new(Primitive::Sphere(sphere)));
    }

    /// Adds a triangle to the accelerated primitives.
    pub fn triangle(
        &mut self,
        a: Point<i64>,
        b: Point<i64>,
        c: Point<i64>,
        material: &Arc<Material>,
    )
        requires
            scene_wf(*old(self)),
            old(self).primitives@.len() < 0x1000_0000,
            vbounded(a.0, WORLD_MAX as int),
            vbounded(b.0, WORLD_MAX as int),
            vbounded(c.0, WORLD_MAX as int),
            mat_wf(**material),
        ensures
            scene_wf(*final(self)),
            final(self).primitives@.len() == old(self).primitives@.len() + 1,
            final(self).objects == old(self).objects,
            final(self).camera == old(self).camera,
            final(self).sky == old(self).sky,
    {
        let tri = Tri::new(a, b, c, share(material));
        self.primitives.push(Arc::new(Primitive::Tri(tri)));
    }

    /// Loads an externally parsed triangle mesh: vertex positions and
    /// one-based triples of vertex indices. Nothing is added and the
    /// call reports failure if any index steps outside the vertex list.
    pub fn mesh(
        &mut self,
        vertices: &Vec<Point<i64>>,
        faces: &Vec<(usize, usize, usize)>,
        material: &Arc<Material>,
    ) -> (ok: bool)
        requires
            scene_wf(*old(self)),
            old(self).primitives@.len() + faces@.len() <= 0x1000_0000,
            forall|i: int|
                0 <= i < vertices@.len() ==> vbounded(
                    (#[trigger] vertices@[i]).0,
                    WORLD_MAX as int,
                ),
            mat_wf(**material),
        ensures
            scene_wf(*final(self)),
            final(self).objects == old(self).objects,
            final(self).camera == old(self).camera,
            final(self).sky == old(self).sky,
            ok == (forall|i: int|
                0 <= i < faces@.len() ==> {
                    let f = #[trigger] faces@[i];
                    1 <= f.0 <= vertices@.len() && 1 <= f.1 <= vertices@.len() && 1 <= f.2
                        <= vertices@.len()
                }),
            !ok ==> final(self).primitives@ == old(self).primitives@,
            ok ==> final(self).primitives@.len() == old(self).primitives@.len() + faces@.len(),
    {
        let n = faces.len();
        let vcount = vertices.len();
        let mut k: usize = 0;
        while k < n
            invariant
                scene_wf(*self),
                self.primitives@ == old(self).primitives@,
                self.objects == old(self).objects,
                self.camera == old(self).camera,
                self.sky == old(self).sky,
                n == faces@.len(),
                vcount == vertices@.len(),
                k <= n,
                forall|i: int|
                    0 <= i < k ==> {
                        let f = #[trigger] faces@[i];
                        1 <= f.0 <= vcount && 1 <= f.1 <= vcount && 1 <= f.2 <= vcount
                    },
            decreases n - k,
        {
            let (ia, ib, ic) = faces[k];
            if ia < 1 || ia > vcount || ib < 1 || ib > vcount || ic < 1 || ic > vcount {
                return false;
            }
            k = k + 1;
        }
        let mut j: usize = 0;
        while j < n
            invariant
                scene_wf(*self),
                old(self).primitives@.len() + n <= 0x1000_0000,
                n == faces@.len(),
                vcount == vertices@.len(),
                j <= n,
                self.primitives@.len() == old(self).primitives@.len() + j,
                self.objects == old(self).objects,
                self.camera == old(self).camera,
                self.sky == old(self).sky,
                mat_wf(**material),
                forall|i: int|
                    0 <= i < vertices@.len() ==> vbounded(
                        (#[trigger] vertices@[i]).0,
                        WORLD_MAX as int,
                    ),
                forall|i: int|
                    0 <= i < n ==> {
                        let f = #[trigger] faces@[i];
                        1 <= f.0 <= vcount && 1 <= f.1 <= vcount && 1 <= f.2 <= vcount
                    },
            decreases n - j,
        {
            let (ia, ib, ic) = faces[j];
            let a = vertices[ia - 1];
            let b = vertices[ib - 1];
            let c = vertices[ic - 1];
            self.triangle(a, b, c, material);
            j = j + 1;
        }
        true
    }

    /// Adds an infinite plane; it stays outside the acceleration tree.
    pub fn plane(&mut self, origin: Point<i64>, normal: Vec3<i64>, material: &Arc<Material>)
        requires
            scene_wf(*old(self)),
            vbounded(origin.0, WORLD_MAX as int),
            vbounded(normal, WORLD_MAX as int),
            len_sq_spec(normal) >= SCALE,
            mat_wf(**material),
        ensures
            scene_wf(*final(self)),
            final(self).primitives@ == old(self).primitives@,
            final(self).camera == old(self).camera,
            final(self).sky == old(self).sky,
    {
        self.objects.add(InfinitePlane::new(origin, normal, share(material)));
    }

    /// Registers a diffuse material.
    pub fn diffuse_material(&mut self, color: Color) -> (m: Arc<Material>)
        requires
            cbounded(color, SCALE as int),
        ensures
            *m == Material::Lambertian(Lambertian { albedo: color }),
            mat_wf(*m),
    {
        Arc::new(Material::Lambertian(Lambertian::new(color)))
    }

    /// Registers a specular material; the fuzz factor is clamped into
    /// one unit.
    pub fn metal_material(&mut self, color: Color, fuzz: i64) -> (m: Arc<Material>)
        requires
            cbounded(color, SCALE as int),
        ensures
            mat_wf(*m),
            *m == Material::Metal(
                Metal {
                    albedo: color,
                    fuzz: if fuzz > SCALE {
                        SCALE as i64
                    } else if fuzz < 0 {
                        0i64
                    } else {
                        fuzz
                    },
                },
            ),
    {
        Arc::new(Material::Metal(Metal::new(color, fuzz)))
    }

    /// Registers a refractive material.
    pub fn dielectric_material(&mut self, ref_idx: i64) -> (m: Arc<Material>)
        requires
            250000 <= ref_idx <= 4 * SCALE,
        ensures
            mat_wf(*m),
            *m == Material::Dielectric(Dielectric { ior: ref_idx }),
    {
        Arc::new(Material::Dielectric(Dielectric::new(ref_idx)))
    }

    /// Replaces the background.
    pub fn sky(&mut self, sky: Sky)
        requires
            scene_wf(*old(self)),
            sky_wf(sky),
        ensures
            scene_wf(*final(self)),
            final(self).sky == sky,
            final(self).primitives@ == old(self).primitives@,
            final(self).objects == old(self).objects,
            final(self).camera == old(self).camera,
    {
        self.sky = sky;
    }

    /// Replaces the camera.
    pub fn camera(
        &mut self,
        look_from: Point<i64>,
        look_at: Point<i64>,
        up: Vec3<i64>,
        tan_half_vfov: i64,
        aspect_ratio: i64,
        aperture: i64,
        focus_dist: i64,
    )
        requires
            scene_wf(*old(self)),
            vbounded(look_from.0, crate::camera::CAM_MAX as int),
            vbounded(look_at.0, crate::camera::CAM_MAX as int),
            vbounded(up, crate::camera::CAM_MAX as int),
            0 <= tan_half_vfov <= 2 * SCALE,
            0 < aspect_ratio <= 4 * SCALE,
            0 <= aperture <= 2 * SCALE,
            0 < focus_dist <= 16 * SCALE,
        ensures
            scene_wf(*final(self)),
            final(self).primitives@ == old(self).primitives@,
            final(self).objects == old(self).objects,
            final(self).sky == old(self).sky,
    {
        self.camera = Camera::new(
            look_from,
            look_at,
            up,
            tan_half_vfov,
            aspect_ratio,
            aperture,
            focus_dist,
        );
    }

    /// The nearest hit among the accelerated primitives and the
    /// unaccelerated objects: a missing hit on either side loses to any
    /// real hit on the other, and of two real hits the nearer wins. Any
    /// hit returned is a genuine hit of a tree primitive or of one of
    /// the unaccelerated objects; no unaccelerated object strikes
    /// strictly closer than the returned hit, and a miss means none of
    /// them strikes at all. Whenever the tree's boxes see every hit
    /// beneath them for this ray, the same holds of the tree's
    /// primitives, so the result is the nearest hit over the whole
    /// scene.
    fn find_hit(&self, r: Ray, tmin: i64, tmax: i64, bvh: &BvhTree) -> (res: Option<VisibleHit>)
        requires
            scene_wf(*self),
            node_wf(bvh.root),
            ray_wf(r),
        ensures
            match res {
                Some(h) => {
                    ||| exists|i: int|
                        0 <= i < crate::object::bvh::node_prims(bvh.root).len()
                            && crate::object::bvh::genuine_hit(
                            *#[trigger] crate::object::bvh::node_prims(bvh.root)[i],
                            r,
                            tmin as int,
                            h,
                        )
                    ||| exists|i: int|
                        0 <= i < self.objects.objects@.len()
                            && #[trigger] crate::object::planar::plane_bounce_spec(
                            self.objects.objects@[i],
                            r,
                            tmin as int,
                            tmax as int,
                        ) == Some(h.t as int)
                },
                None => true,
            },
            match res {
                Some(h) => hit_wf(h) && tmin <= h.t < tmax && forall|j: int|
                    0 <= j < self.objects.objects@.len()
                        ==> match #[trigger] crate::object::planar::plane_bounce_spec(
                        self.objects.objects@[j],
                        r,
                        tmin as int,
                        tmax as int,
                    ) {
                        None => true,
                        Some(tj) => tj >= h.t as int,
                    },
                None => forall|j: int|
                    0 <= j < self.objects.objects@.len()
                        ==> #[trigger] crate::object::planar::plane_bounce_spec(
                        self.objects.objects@[j],
                        r,
                        tmin as int,
                        tmax as int,
                    ) is None,
            },
            nothing_hit(
                self.objects.objects@,
                crate::object::bvh::node_prims(bvh.root),
                r,
                tmin as int,
                tmax as int,
            ) ==> res is None,
            crate::object::bvh::boxes_see(bvh.root, r, tmin as int, tmax as int) ==> match res {
                Some(h) => forall|j: int|
                    0 <= j < crate::object::bvh::node_prims(bvh.root).len()
                        ==> match #[trigger] crate::object::bvh::prim_bounce_spec(
                        *crate::object::bvh::node_prims(bvh.root)[j],
                        r,
                        tmin as int,
                        tmax as int,
                    ) {
                        None => true,
                        Some(tj) => tj >= h.t as int,
                    },
                None => forall|j: int|
                    0 <= j < crate::object::bvh::node_prims(bvh.root).len()
                        ==> #[trigger] crate::object::bvh::prim_bounce_spec(
                        *crate::object::bvh::node_prims(bvh.root)[j],
                        r,
                        tmin as int,
                        tmax as int,
                    ) is None,
            },
    {
        let closest_bvh = bvh.bounce(r, tmin, tmax);
        let closest_object = self.objects.bounce(r, tmin, tmax);

        match (closest_object, closest_bvh) {
            (Some(obj), Some(b)) => {
                proof {
                    lemma_list_hit_in_range(*self, r, tmin as int, tmax as int, obj);
                    crate::object::bvh::lemma_genuine_exists_finite(
                        crate::object::bvh::node_prims(bvh.root),
                        r,
                        tmin as int,
                        b,
                    );
                }
                if obj.t < b.t {
                    Some(obj)
                } else {
                    Some(b)
                }
            },
            (Some(obj), None) => {
                proof {
                    lemma_list_hit_in_range(*self, r, tmin as int, tmax as int, obj);
                }
                Some(obj)
            },
            (None, Some(b)) => {
                proof {
                    crate::object::bvh::lemma_genuine_exists_finite(
                        crate::object::bvh::node_prims(bvh.root),
                        r,
                        tmin as int,
                        b,
                    );
                }
                Some(b)
            },
            (None, None) => None,
        }
    }

    /// Evaluates the light arriving along a ray: black once the bounce
    /// budget is spent, the attenuated light of the scattered ray after
    /// a hit, and the background where nothing is struck. The result
    /// never exceeds full intensity on any channel.
    fn ray_color(
        &self,
        rng: &mut rand::rngs::StdRng,
        r: Ray,
        depth: u32,
        bvh: &BvhTree,
    ) -> (c: Color)
        requires
            scene_wf(*self),
            node_wf(bvh.root),
            ray_wf(r),
        ensures
            cbounded(c, SCALE as int),
            depth == 0 ==> c.0 == (Vec3 { x: 0i64, y: 0i64, z: 0i64 }),
            depth >= 1 && nothing_hit(
                self.objects.objects@,
                crate::object::bvh::node_prims(bvh.root),
                r,
                HIT_TOLERANCE as int,
                T_MAX as int,
            ) ==> c.0 == (if len_sq_spec(r.direction) < 250000 {
                Vec3 { x: 0i64, y: 0i64, z: 0i64 }
            } else {
                match self.sky {
                    crate::sky::Sky::Uniform(u) => u.color.0,
                    crate::sky::Sky::Day(_) => crate::sky::day::day_at_spec(
                        crate::camera::unit_of(r.direction),
                    ).0,
                }
            }),
        decreases depth,
    {
        if depth == 0 {
            return Color::black();
        }

        if let Some(hit) = self.find_hit(r, HIT_TOLERANCE, T_MAX, bvh) {
            let scattered = hit.material.scatter(rng, r, &hit);
            if let Some((scattered_ray, attenuation)) = scattered {
                return attenuation.attenuate(self.ray_color(rng, scattered_ray, depth - 1, bvh));
            }
            return Color::black();
        }

        let dir = r.direction();
        let dlsq = dir.len_sq();
        if dlsq < 250000 {
            // Too short to normalize: nothing arrives along it.
            return Color::black();
        }
        let unit = dir.unit();
        proof {
            assert((SCALE as int) / 4 == 250000);
            assert(unit == crate::camera::unit_of(r.direction));
        }
        self.sky.at(unit)
    }

    /// Renders one pixel `(x, y)`: the average over the requested
    /// samples of the traced color through the pixel's own viewport
    /// coordinates, each sample jittered within the pixel's footprint,
    /// gamma corrected. Every channel of the result lies within one
    /// unit.
    fn render_pixel(
        &self,
        bvh: &BvhTree,
        x: usize,
        y: usize,
        width: usize,
        height: usize,
        samples_per_pixel: u32,
        max_depth: u32,
        seed: u64,
    ) -> (c: Color)
        requires
            scene_wf(*self),
            node_wf(bvh.root),
            2 <= width <= 0xffff,
            2 <= height <= 0xffff,
            x < width,
            y < height,
            samples_per_pixel >= 1,
        ensures
            cbounded(c, SCALE as int),
            max_depth == 0 ==> c.0 == (Vec3 { x: 0i64, y: 0i64, z: 0i64 }),
    {
        let mut rng = rng_from_seed(seed);
        let mut sum = Color::black();
        let mut s: u32 = 0;
        let spp = samples_per_pixel;
        while s < spp
            invariant
                scene_wf(*self),
                node_wf(bvh.root),
                2 <= width <= 0xffff,
                2 <= height <= 0xffff,
                x < width,
                y < height,
                s <= spp,
                0 <= sum.0.x <= s * (SCALE as int),
                0 <= sum.0.y <= s * (SCALE as int),
                0 <= sum.0.z <= s * (SCALE as int),
                max_depth == 0 ==> sum.0 == (Vec3 { x: 0i64, y: 0i64, z: 0i64 }),
            decreases spp - s,
        {
            let ju = rand_range(&mut rng, 0, SCALE);
            let jv = rand_range(&mut rng, 0, SCALE);
            let u = viewport_coord(x, width, ju);
            let v = viewport_coord(y, height, jv);
            let ray = self.camera.ray_at(&mut rng, u, v);
            let sample = self.ray_color(&mut rng, ray, max_depth, bvh);
            proof {
                assert(s * (SCALE as int) + SCALE == (s + 1) * (SCALE as int)) by (nonlinear_arith);
                assert(spp * (SCALE as int) <= 0x1_0000_0000 * (SCALE as int)) by (nonlinear_arith)
                    requires
                        spp <= 0x1_0000_0000,
                        SCALE >= 0,
                ;
            }
            sum = sum + sample;
            s = s + 1;
        }
        proof {
            assert(spp * (SCALE as int) <= 0x1_0000_0000 * (SCALE as int)) by (nonlinear_arith)
                requires
                    spp <= 0x1_0000_0000,
                    SCALE >= 0,
            ;
            lemma_average_channel(sum.0.x as int, spp as int);
            lemma_average_channel(sum.0.y as int, spp as int);
            lemma_average_channel(sum.0.z as int, spp as int);
        }
        let avg_r = div_t(sum.0.x as i128, spp as i128) as i64;
        let avg_g = div_t(sum.0.y as i128, spp as i128) as i64;
        let avg_b = div_t(sum.0.z as i128, spp as i128) as i64;

        proof {
            lemma_gamma_channel(avg_r as int);
            lemma_gamma_channel(avg_g as int);
            lemma_gamma_channel(avg_b as int);
        }
        let out = Color(Vec3::new(fsqrt(avg_r), fsqrt(avg_g), fsqrt(avg_b)));
        proof {
            if max_depth == 0 {
                assert(avg_r == 0 && avg_g == 0 && avg_b == 0);
                assert(out.0.x == 0 && out.0.y == 0 && out.0.z == 0) by (nonlinear_arith)
                    requires
                        crate::fixed::is_isqrt(0, out.0.x as int),
                        crate::fixed::is_isqrt(0, out.0.y as int),
                        crate::fixed::is_isqrt(0, out.0.z as int),
                ;
            }
        }
        out
    }

    /// Renders the scene into the image with a generator seeded from the
    /// given word, so the same seed reproduces the same image. Every
    /// pixel of the result lies within one unit on every channel.
    pub fn render_seeded(
        &self,
        image: &mut Image,
        samples_per_pixel: u32,
        max_depth: u32,
        seed: u64,
    )
        requires
            scene_wf(*self),
            image_wf(*old(image)),
            2 <= old(image).width <= 0xffff,
            2 <= old(image).height <= 0xffff,
            samples_per_pixel >= 1,
        ensures
            image_wf(*final(image)),
            final(image).width == old(image).width,
            final(image).height == old(image).height,
            forall|i: int|
                0 <= i < final(image).pixels@.len() ==> cbounded(
                    #[trigger] final(image).pixels@[i],
                    SCALE as int,
                ),
            max_depth == 0 ==> forall|i: int|
                0 <= i < final(image).pixels@.len()
                    ==> (#[trigger] final(image).pixels@[i]).0 == (Vec3 {
                    x: 0i64,
                    y: 0i64,
                    z: 0i64,
                }),
    {
        let mut shared: Vec<Arc<Primitive>> = Vec::new();
        let n = self.primitives.len();
        let mut k: usize = 0;
        while k < n
            invariant
                scene_wf(*self),
                n == self.primitives@.len(),
                k <= n,
                shared@.len() == k,
                forall|i: int| 0 <= i < k ==> shared@[i] == self.primitives@[i],
            decreases n - k,
        {
            shared.push(share(&self.primitives[k]));
            k = k + 1;
        }
        proof {
            assert(prims_wf(shared@)) by {
                assert forall|i: int|
                    0 <= i < shared@.len() implies crate::object::bvh::prim_wf(
                    *#[trigger] shared@[i],
                ) by {
                    assert(shared@[i] == self.primitives@[i]);
                }
            }
        }
        let bvh = BvhTree::build(shared);

        let width = image.width();
        let height = image.height();

        let f = |idx: usize| -> (c: Color)
            requires
                idx < width * height,
                scene_wf_ref(self),
                tree_wf_ref(&bvh),
                2 <= width <= 0xffff,
                2 <= height <= 0xffff,
                samples_per_pixel >= 1,
            ensures
                cbounded(c, SCALE as int),
                max_depth == 0 ==> c.0 == (Vec3 { x: 0i64, y: 0i64, z: 0i64 }),
            {
                let x = idx % width;
                let y_row = idx / width;
                proof {
                    assert(idx / width < height) by (nonlinear_arith)
                        requires
                            idx < width * height,
                            width >= 1,
                    ;
                }
                let y = height - 1 - y_row;
                let pixel_seed = seed ^ (idx as u64);
                self.render_pixel(&bvh, x, y, width, height, samples_per_pixel, max_depth, pixel_seed)
            };
        image.apply_parallel(&f);
    }

    /// Renders the scene into the image with a seed drawn from the
    /// system entropy source.
    pub fn render(&self, image: &mut Image, samples_per_pixel: u32, max_depth: u32)
        requires
            scene_wf(*self),
            image_wf(*old(image)),
            2 <= old(image).width <= 0xffff,
            2 <= old(image).height <= 0xffff,
            samples_per_pixel >= 1,
        ensures
            image_wf(*final(image)),
            final(image).width == old(image).width,
            final(image).height == old(image).height,
            forall|i: int|
                0 <= i < final(image).pixels@.len() ==> cbounded(
                    #[trigger] final(image).pixels@[i],
                    SCALE as int,
                ),
            max_depth == 0 ==> forall|i: int|
                0 <= i < final(image).pixels@.len()
                    ==> (#[trigger] final(image).pixels@[i]).0 == (Vec3 {
                    x: 0i64,
                    y: 0i64,
                    z: 0i64,
                }),
    {
        let mut entropy = rng_from_entropy();
        let seed = rand_word(&mut entropy);
        self.render_seeded(image, samples_per_pixel, max_depth, seed)
    }
}

/// The viewport fraction of pixel `i` out of `extent`, jittered within
/// the pixel's footprint: `(i + jitter) / (extent - 1)`, clamped into
/// one unit (the clamp can bind only on the last row or column, where
/// the jitter may step just past the viewport's edge).
pub open spec fn viewport_coord_spec(i: int, extent: int, jitter: int) -> int {
    let q = tdiv(i * SCALE + jitter, extent - 1);
    if q > SCALE {
        SCALE as int
    } else if q < 0 {
        0
    } else {
        q
    }
}

/// Computes the viewport fraction of one pixel coordinate.
fn viewport_coord(i: usize, extent: usize, jitter: i64) -> (c: i64)
    requires
        2 <= extent <= 0xffff,
        i < extent,
        0 <= jitter < SCALE,
    ensures
        c == viewport_coord_spec(i as int, extent as int, jitter as int),
        0 <= c <= SCALE,
{
    proof {
        crate::fixed::lemma_mul_le(i as int, SCALE as int, 0xffff, SCALE as int);
        crate::fixed::lemma_tdiv_le((i as int) * SCALE + jitter, (extent - 1) as int);
    }
    let num: i64 = (i as i64) * SCALE + jitter;
    let den: i64 = (extent as i64) - 1;
    let q = div_t(num as i128, den as i128) as i64;
    clamp(q, 0, SCALE)
}

/// Nothing in the scene lies on the ray: every accelerated primitive
/// misses it over the whole representable interval past the tolerance,
/// and so does every unaccelerated object.
pub open spec fn nothing_hit(
    objects: Seq<crate::object::planar::InfinitePlane>,
    prims: Seq<std::sync::Arc<Primitive>>,
    r: Ray,
    tmin: int,
    tmax: int,
) -> bool {
    &&& forall|j: int|
        0 <= j < prims.len() ==> #[trigger] crate::object::bvh::prim_bounce_spec(
            *prims[j],
            r,
            tmin,
            T_MAX + 1,
        ) is None
    &&& forall|j: int|
        0 <= j < objects.len() ==> #[trigger] crate::object::planar::plane_bounce_spec(
            objects[j],
            r,
            tmin,
            tmax,
        ) is None
}

/// The well-formedness of a scene, through a reference.
pub open spec fn scene_wf_ref(s: &Scene) -> bool {
    scene_wf(*s)
}

/// The well-formedness of a tree, through a reference.
pub open spec fn tree_wf_ref(b: &BvhTree) -> bool {
    node_wf(b.root)
}

/// A hit returned by the unaccelerated list lies in the queried range.
proof fn lemma_list_hit_in_range(s: Scene, r: Ray, tmin: int, tmax: int, h: VisibleHit)
    requires
        exists|i: int|
            0 <= i < s.objects.objects@.len() && #[trigger] crate::object::planar::plane_bounce_spec(
                s.objects.objects@[i],
                r,
                tmin,
                tmax,
            ) == Some(h.t as int),
    ensures
        tmin <= h.t < tmax,
        iabs(h.t as int) <= T_MAX as int,
{
    let i = choose|i: int|
        0 <= i < s.objects.objects@.len() && #[trigger] crate::object::planar::plane_bounce_spec(
            s.objects.objects@[i],
            r,
            tmin,
            tmax,
        ) == Some(h.t as int);
    assert(crate::object::planar::plane_bounce_spec(s.objects.objects@[i], r, tmin, tmax) == Some(
        h.t as int,
    ));
}

/// A nonnegative channel sum averaged over its samples stays within one
/// unit of intensity.
proof fn lemma_average_channel(sum: int, spp: int)
    requires
        spp >= 1,
        0 <= sum <= spp * SCALE,
    ensures
        0 <= tdiv(sum, spp) <= SCALE,
        iabs(tdiv(sum, spp)) <= i128::MAX,
{
    lemma_div_le(sum, spp);
    lemma_div_mono(sum, spp * SCALE, spp);
    vstd::arithmetic::div_mod::lemma_fundamental_div_mod_converse(
        spp * SCALE,
        spp,
        SCALE as int,
        0,
    );
}

/// The square root of a channel within one unit is within one unit.
proof fn lemma_gamma_channel(avg: int)
    requires
        0 <= avg <= SCALE,
    ensures
        forall|r: int|
            #[trigger] crate::fixed::is_isqrt(avg * SCALE, r) ==> 0 <= r <= SCALE,
{
    assert forall|r: int| #[trigger] crate::fixed::is_isqrt(avg * SCALE, r) implies 0 <= r
        <= SCALE by {
        assert(avg * SCALE < (SCALE + 1) * (SCALE + 1)) by (nonlinear_arith)
            requires
                0 <= avg <= SCALE,
                SCALE >= 1,
        ;
        assert(avg * SCALE >= 0) by (nonlinear_arith)
            requires
                avg >= 0,
                SCALE >= 0,
        ;
        lemma_root_lt(r, avg * SCALE, SCALE + 1);
    }
}

} // verus!
