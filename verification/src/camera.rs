//! The camera: rays through pixels, the radiance they gather, and the image.

use crate::color::pixel_line;
use crate::color::push_decimal;
use crate::color::decimal;
use crate::color::lemma_join;
use crate::color::lemma_lines_concat;
use crate::color::lemma_lines_push;
use crate::color::lines_spec;
use crate::color::write_color;
use crate::hittable::Hittable;
use crate::hittable_list::HittableList;
use crate::interval::Interval;
use crate::material::Material;
use crate::ray::Ray;
use crate::scalar::is_isqrt;
use crate::scalar::lemma_isqrt_unique;
use crate::scalar::Scalar;
use crate::scalar::MAX_RAW;
use crate::scalar::ONE_RAW;
use crate::utils::degrees_to_radians;
use crate::utils::degrees_to_radians_spec;
use crate::utils::random_double;
use crate::utils::RandomSource;
use crate::vec3::in_unit_disk;
use crate::vec3::is_draw;
use crate::vec3::random_in_unit_disk_spec;
use crate::vec3::Vec3;
use crate::vec3::SAMPLE_TRIES;
use vstd::prelude::*;
use vstd::string::StringExecFns;

verus! {

pub struct Camera {
    /// Ratio of image width over height.
    pub aspect_ratio: Scalar,
    /// Rendered image width in pixels.
    pub image_width: i32,
    /// Count of random samples for each pixel.
    pub samples_per_pixel: i32,
    /// Maximum number of ray bounces into the scene.
    pub max_depth: i32,
    /// Vertical view angle in degrees.
    pub vfov: Scalar,
    /// Point the camera is looking from.
    pub lookfrom: Vec3,
    /// Point the camera is looking at.
    pub lookat: Vec3,
    /// Camera-relative "up" direction.
    pub vup: Vec3,
    /// Variation angle of rays through each pixel, in degrees.
    pub defocus_angle: Scalar,
    /// Distance from the camera to the plane of perfect focus.
    pub focus_dist: Scalar,
    /// Rendered image height in pixels.
    pub image_height: i32,
    /// Camera center.
    pub center: Vec3,
    /// Location of pixel 0, 0.
    pub pixel00_loc: Vec3,
    /// Offset to the pixel to the right.
    pub pixel_delta_u: Vec3,
    /// Offset to the pixel below.
    pub pixel_delta_v: Vec3,
    /// Camera frame basis vectors.
    pub u: Vec3,
    pub v: Vec3,
    pub w: Vec3,
    /// Defocus disk horizontal radius.
    pub defocus_disk_u: Vec3,
    /// Defocus disk vertical radius.
    pub defocus_disk_v: Vec3,
}

/// The image height for a width and a ratio of width over height: their
/// quotient rounded down, and at least one.
pub open spec fn height_spec(image_width: int, aspect_ratio: Scalar) -> int {
    let h = Scalar::int_spec(image_width).div_spec(aspect_ratio).floor_spec();
    if h < 1 {
        1
    } else if h > 0x7fff_ffff {
        0x7fff_ffff
    } else {
        h
    }
}

/// The range of ray parameters in which a hit counts: from one ten-thousandth,
/// which keeps a ray from hitting the surface that it leaves, to infinity.
pub open spec fn visible() -> Interval {
    Interval { min: Scalar::ratio_spec(1, 10000), max: Scalar { raw: MAX_RAW } }
}

/// The light of the sky in the direction of `r`: white for a ray that points
/// straight down, blending into blue for one that points straight up.
pub open spec fn background_spec(r: Ray) -> Vec3 {
    let one = Scalar::int_spec(1);
    let beta = Scalar::ratio_spec(1, 2).mul_spec(r.direction.unit_spec().y.add_spec(one));
    let white = Vec3 { x: one, y: one, z: one };
    let blue = Vec3 { x: Scalar::ratio_spec(1, 2), y: Scalar::ratio_spec(7, 10), z: one };
    white.mul_spec(one.sub_spec(beta)).add_spec(blue.mul_spec(beta))
}

/// The radiance that arrives along the ray `r` after at most `depth` bounces
/// in `world`, with the random numbers of the deterministic source `rng`, and
/// the source after that. A ray whose direction has no length carries none.
pub open spec fn ray_color_spec(r: Ray, depth: int, world: HittableList, rng: RandomSource) -> (
    Vec3,
    RandomSource,
)
    decreases depth,
{
    if depth <= 0 || !r.directed() {
        (Vec3::zero_spec(), rng)
    } else {
        match world.hit_spec(r, visible()) {
            None => (background_spec(r), rng),
            Some(rec) => {
                let (scatter, following) = rec.mat.scatter_spec(r, rec, rng);
                match scatter {
                    None => (Vec3::zero_spec(), following),
                    Some(s) => {
                        let (gathered, last) = ray_color_spec(
                            s.scattered,
                            depth - 1,
                            world,
                            following,
                        );
                        (s.attenuation.hadamard_spec(gathered), last)
                    },
                }
            },
        }
    }
}

/// In a scene without spheres every ray that has a direction and a bounce
/// left gathers the light of the sky, and draws no random number.
pub proof fn lemma_empty_scene(r: Ray, depth: int, world: HittableList, rng: RandomSource)
    requires
        world.objects@.len() == 0,
        depth > 0,
        r.directed(),
    ensures
        ray_color_spec(r, depth, world, rng) == (background_spec(r), rng),
{
}

/// The light of the sky along `r`, and none for a ray whose direction has no
/// length.
pub open spec fn sky_spec(r: Ray) -> Vec3 {
    if r.directed() {
        background_spec(r)
    } else {
        Vec3::zero_spec()
    }
}

impl Camera {
    /// The light of the sky summed over the first `count` sample rays of
    /// pixel `(i, j)`.
    pub open spec fn sky_samples_spec(self, i: int, j: int, count: nat, rng: RandomSource) -> (
        Vec3,
        RandomSource,
    )
        decreases count,
    {
        if count == 0 {
            (Vec3::zero_spec(), rng)
        } else {
            let (sum, r1) = self.sky_samples_spec(i, j, (count - 1) as nat, rng);
            let (ray, r2) = self.get_ray_spec(i, j, r1);
            (sum.add_spec(sky_spec(ray)), r2)
        }
    }

    /// In a scene without spheres every pixel gathers exactly the light of
    /// the sky along its sample rays, as long as the camera allows a bounce.
    pub proof fn lemma_empty_scene_pixel(
        self,
        world: HittableList,
        i: int,
        j: int,
        count: nat,
        rng: RandomSource,
    )
        requires
            world.objects@.len() == 0,
            self.max_depth > 0,
        ensures
            self.samples_spec(world, i, j, count, rng) == self.sky_samples_spec(i, j, count, rng),
        decreases count,
    {
        if count > 0 {
            self.lemma_empty_scene_pixel(world, i, j, (count - 1) as nat, rng);
            let (sum, r1) = self.samples_spec(world, i, j, (count - 1) as nat, rng);
            let (ray, r2) = self.get_ray_spec(i, j, r1);
            if ray.directed() {
                lemma_empty_scene(ray, self.max_depth as int, world, r2);
            }
        }
    }

    /// The camera for the given settings, with everything derived from them.
    pub open spec fn new_spec(
        aspect_ratio: Scalar,
        image_width: i32,
        samples_per_pixel: i32,
        max_depth: i32,
        vfov: Scalar,
        lookfrom: Vec3,
        lookat: Vec3,
        vup: Vec3,
        defocus_angle: Scalar,
        focus_dist: Scalar,
    ) -> Camera {
        let two = Scalar::int_spec(2);
        let image_height = height_spec(image_width as int, aspect_ratio);
        let theta = degrees_to_radians_spec(vfov);
        let h = theta.div_spec(two).tan_spec();
        let viewport_height = two.mul_spec(h).mul_spec(focus_dist);
        let viewport_width = viewport_height.mul_spec(
            Scalar::int_spec(image_width as int).div_spec(Scalar::int_spec(image_height)),
        );
        let w = lookfrom.sub_spec(lookat).unit_spec();
        let u = vup.cross_spec(w).unit_spec();
        let v = w.cross_spec(u);
        let viewport_u = u.mul_spec(viewport_width);
        let viewport_v = v.neg_spec().mul_spec(viewport_height);
        let pixel_delta_u = viewport_u.div_spec(Scalar::int_spec(image_width as int));
        let pixel_delta_v = viewport_v.div_spec(Scalar::int_spec(image_height));
        let viewport_upper_left = lookfrom.sub_spec(w.mul_spec(focus_dist)).sub_spec(
            viewport_u.div_spec(two),
        ).sub_spec(viewport_v.div_spec(two));
        let defocus_radius = focus_dist.mul_spec(
            degrees_to_radians_spec(defocus_angle.div_spec(two)).tan_spec(),
        );
        Camera {
            aspect_ratio,
            image_width,
            samples_per_pixel,
            max_depth,
            vfov,
            lookfrom,
            lookat,
            vup,
            defocus_angle,
            focus_dist,
            image_height: image_height as i32,
            center: lookfrom,
            pixel00_loc: viewport_upper_left.add_spec(pixel_delta_u.div_spec(two)).add_spec(
                pixel_delta_v.div_spec(two),
            ),
            pixel_delta_u,
            pixel_delta_v,
            u,
            v,
            w,
            defocus_disk_u: u.mul_spec(defocus_radius),
            defocus_disk_v: v.mul_spec(defocus_radius),
        }
    }

    /// Whether the settings allow a camera to be derived: the image has a
    /// width, the ratio is not zero, the camera does not look at the point
    /// where it stands, and it does not look along its "up" direction.
    pub open spec fn settings_ok(
        aspect_ratio: Scalar,
        image_width: i32,
        lookfrom: Vec3,
        lookat: Vec3,
        vup: Vec3,
    ) -> bool {
        &&& image_width >= 1
        &&& aspect_ratio@ != 0
        &&& lookfrom.sub_spec(lookat).dot_square_spec()@ > 0
        &&& vup.cross_spec(lookfrom.sub_spec(lookat).unit_spec()).dot_square_spec()@ > 0
    }

    /// The share of the image, in percent, that counts as finished once row
    /// `j` is rendered, when `percentage` counted before: one more where the
    /// rows above `j` are a larger share than that.
    pub open spec fn progress_spec(self, j: int, percentage: int) -> int {
        if j * 100 > percentage * self.image_height {
            percentage + 1
        } else {
            percentage
        }
    }

    /// Whether the step from `percentage` after row `j` is worth a message
    /// when every `log_interval`-th percent is announced.
    pub open spec fn announces_spec(self, j: int, percentage: int, log_interval: int) -> bool {
        j * 100 > percentage * self.image_height && (percentage + 1) % (if log_interval < 0 {
            -log_interval
        } else {
            log_interval
        }) == 0
    }

    /// Whether the camera can render: the image has at least one pixel, and
    /// every pixel at least one sample.
    pub open spec fn wf(self) -> bool {
        self.image_width >= 1 && self.image_height >= 1 && self.samples_per_pixel >= 1
    }

    /// The offset of a sample from its pixel's center for the draws `a` and `b`.
    pub open spec fn sample_square_spec(self, a: Scalar, b: Scalar) -> Vec3 {
        let half = Scalar::ratio_spec(-1, 2);
        self.pixel_delta_u.mul_spec(half.add_spec(a)).add_spec(
            self.pixel_delta_v.mul_spec(half.add_spec(b)),
        )
    }

    /// The point of the defocus disk that belongs to the point `p` of the unit disk.
    pub open spec fn disk_point_spec(self, p: Vec3) -> Vec3 {
        self.center.add_spec(self.defocus_disk_u.mul_spec(p.x)).add_spec(
            self.defocus_disk_v.mul_spec(p.y),
        )
    }

    /// The center of the pixel in column `i` and row `j`.
    pub open spec fn pixel_center_spec(self, i: int, j: int) -> Vec3 {
        self.pixel00_loc.add_spec(self.pixel_delta_u.mul_spec(Scalar::int_spec(i))).add_spec(
            self.pixel_delta_v.mul_spec(Scalar::int_spec(j)),
        )
    }

    /// The ray from `origin` through the sample of pixel `(i, j)` that is
    /// offset by `offset` from the pixel's center.
    pub open spec fn ray_through(self, i: int, j: int, offset: Vec3, origin: Vec3) -> Ray {
        Ray { origin, direction: self.pixel_center_spec(i, j).add_spec(offset).sub_spec(origin) }
    }

    /// The camera ray for pixel `(i, j)` with the random numbers of the
    /// deterministic source `rng`, and the source after that.
    pub open spec fn get_ray_spec(self, i: int, j: int, rng: RandomSource) -> (Ray, RandomSource) {
        let r1 = rng.advance();
        let r2 = r1.advance();
        let offset = self.sample_square_spec(rng.peek(), r1.peek());
        if self.defocus_angle@ <= 0 {
            (self.ray_through(i, j, offset, self.center), r2)
        } else {
            let (p, r3) = random_in_unit_disk_spec(r2, SAMPLE_TRIES as nat);
            (self.ray_through(i, j, offset, self.disk_point_spec(p)), r3)
        }
    }

    /// The radiance summed over the first `count` samples of pixel `(i, j)`.
    pub open spec fn samples_spec(
        self,
        world: HittableList,
        i: int,
        j: int,
        count: nat,
        rng: RandomSource,
    ) -> (Vec3, RandomSource)
        decreases count,
    {
        if count == 0 {
            (Vec3::zero_spec(), rng)
        } else {
            let (sum, r1) = self.samples_spec(world, i, j, (count - 1) as nat, rng);
            let (ray, r2) = self.get_ray_spec(i, j, r1);
            let (color, r3) = ray_color_spec(ray, self.max_depth as int, world, r2);
            (sum.add_spec(color), r3)
        }
    }

    /// The lines of the first `count` pixels of row `j`, from left to right.
    pub open spec fn row_spec(self, world: HittableList, j: int, count: nat, rng: RandomSource) -> (
        Seq<char>,
        RandomSource,
    )
        decreases count,
    {
        if count == 0 {
            (Seq::<char>::empty(), rng)
        } else {
            let (text, r1) = self.row_spec(world, j, (count - 1) as nat, rng);
            let (sum, r2) = self.samples_spec(
                world,
                count - 1,
                j,
                self.samples_per_pixel as nat,
                r1,
            );
            (text + pixel_line(sum, self.samples_per_pixel as int), r2)
        }
    }

    /// The lines of the first `count` rows, from the top.
    pub open spec fn rows_spec(self, world: HittableList, count: nat, rng: RandomSource) -> (
        Seq<char>,
        RandomSource,
    )
        decreases count,
    {
        if count == 0 {
            (Seq::<char>::empty(), rng)
        } else {
            let (text, r1) = self.rows_spec(world, (count - 1) as nat, rng);
            let (row, r2) = self.row_spec(world, count - 1, self.image_width as nat, r1);
            (text + row, r2)
        }
    }

    /// One more pixel of a row: the lines so far and the line of the pixel.
    pub proof fn lemma_row_step(self, world: HittableList, j: int, count: nat, rng: RandomSource)
        ensures
            self.row_spec(world, j, count + 1, rng) == ({
                let (text, r1) = self.row_spec(world, j, count, rng);
                let (sum, r2) = self.samples_spec(
                    world,
                    count as int,
                    j,
                    self.samples_per_pixel as nat,
                    r1,
                );
                (text + pixel_line(sum, self.samples_per_pixel as int), r2)
            }),
    {
        assert((count + 1) as nat - 1 == count);
    }

    /// One more row of the image: the lines so far and the lines of the row.
    pub proof fn lemma_rows_step(self, world: HittableList, count: nat, rng: RandomSource)
        ensures
            self.rows_spec(world, count + 1, rng) == ({
                let (text, r1) = self.rows_spec(world, count, rng);
                let (row, r2) = self.row_spec(world, count as int, self.image_width as nat, r1);
                (text + row, r2)
            }),
    {
        assert((count + 1) as nat - 1 == count);
    }

    /// The head of the image's text: the format, the width and the height,
    /// and the largest value of a channel.
    pub open spec fn header_spec(self) -> Seq<char> {
        seq!['P', '3', '\n'] + decimal(self.image_width as nat) + seq![' '] + decimal(
            self.image_height as nat,
        ) + seq!['\n', '2', '5', '5', '\n']
    }

    /// The whole text of the image.
    pub open spec fn image_spec(self, world: HittableList, rng: RandomSource) -> (
        Seq<char>,
        RandomSource,
    ) {
        let (rows, following) = self.rows_spec(world, self.image_height as nat, rng);
        (self.header_spec() + rows, following)
    }

    pub fn new(
        aspect_ratio: Scalar,
        image_width: i32,
        samples_per_pixel: i32,
        max_depth: i32,
        vfov: Scalar,
        lookfrom: Vec3,
        lookat: Vec3,
        vup: Vec3,
        defocus_angle: Scalar,
        focus_dist: Scalar,
    ) -> (r: Camera)
        requires
            Camera::settings_ok(aspect_ratio, image_width, lookfrom, lookat, vup),
        ensures
            r == Camera::new_spec(
                aspect_ratio,
                image_width,
                samples_per_pixel,
                max_depth,
                vfov,
                lookfrom,
                lookat,
                vup,
                defocus_angle,
                focus_dist,
            ),
            r.image_width >= 1,
            r.image_height >= 1,
            samples_per_pixel >= 1 ==> r.wf(),
    {
        let two = Scalar::from_int(2);
        let quotient: i64 = Scalar::from_int(image_width).div(aspect_ratio).floor();
        let image_height: i32 = if quotient < 1 {
            1
        } else if quotient > 0x7fff_ffff {
            0x7fff_ffff
        } else {
            quotient as i32
        };
        let center = lookfrom;

        let theta = degrees_to_radians(vfov);
        let h = theta.div(two).tan();
        let viewport_height = two.mul(h).mul(focus_dist);
        let viewport_width = viewport_height.mul(
            Scalar::from_int(image_width).div(Scalar::from_int(image_height)),
        );

        let w = lookfrom.sub(lookat).unit();
        let u = vup.cross(&w).unit();
        let v = w.cross(&u);

        let viewport_u = u.mul(viewport_width);
        let viewport_v = v.neg().mul(viewport_height);
        let pixel_delta_u = viewport_u.div(Scalar::from_int(image_width));
        let pixel_delta_v = viewport_v.div(Scalar::from_int(image_height));

        let viewport_upper_left = center.sub(w.mul(focus_dist)).sub(viewport_u.div(two)).sub(
            viewport_v.div(two),
        );
        let pixel00_loc = viewport_upper_left.add(pixel_delta_u.div(two)).add(
            pixel_delta_v.div(two),
        );

        let defocus_radius = focus_dist.mul(degrees_to_radians(defocus_angle.div(two)).tan());
        let defocus_disk_u = u.mul(defocus_radius);
        let defocus_disk_v = v.mul(defocus_radius);

        Camera {
            aspect_ratio,
            image_width,
            samples_per_pixel,
            max_depth,
            vfov,
            lookfrom,
            lookat,
            vup,
            defocus_angle,
            focus_dist,
            image_height,
            center,
            pixel00_loc,
            pixel_delta_u,
            pixel_delta_v,
            u,
            v,
            w,
            defocus_disk_u,
            defocus_disk_v,
        }
    }

    /// The camera that stands one unit before the origin, looks at the
    /// origin with a view angle of 90 degrees, and takes ten samples of up to
    /// ten bounces for each of 100 by 100 pixels, all of them in focus.
    pub fn default() -> (r: Camera)
        ensures
            r == Camera::new_spec(
                Scalar::int_spec(1),
                100,
                10,
                10,
                Scalar::int_spec(90),
                Vec3 { x: Scalar::int_spec(0), y: Scalar::int_spec(0), z: Scalar::int_spec(-1) },
                Vec3 { x: Scalar::int_spec(0), y: Scalar::int_spec(0), z: Scalar::int_spec(0) },
                Vec3 { x: Scalar::int_spec(0), y: Scalar::int_spec(1), z: Scalar::int_spec(0) },
                Scalar::int_spec(0),
                Scalar::int_spec(10),
            ),
            r.wf(),
    {
        let lookfrom = Vec3::new(Scalar::from_int(0), Scalar::from_int(0), Scalar::from_int(-1));
        let lookat = Vec3::new(Scalar::from_int(0), Scalar::from_int(0), Scalar::from_int(0));
        let vup = Vec3::new(Scalar::from_int(0), Scalar::from_int(1), Scalar::from_int(0));
        proof {
            let back = lookfrom.sub_spec(lookat);
            let zero = Scalar { raw: 0 };
            let one = Scalar { raw: ONE_RAW };
            let minus = Scalar { raw: -4294967296i64 };
            assert(back == (Vec3 { x: zero, y: zero, z: minus }));
            assert(vup == (Vec3 { x: zero, y: one, z: zero }));
            assert((-ONE_RAW) * (-ONE_RAW) == ONE_RAW * ONE_RAW) by (nonlinear_arith);
            assert(ONE_RAW * (-ONE_RAW) == -(ONE_RAW * ONE_RAW)) by (nonlinear_arith);
            assert(minus.mul_spec(minus) == one);
            assert(one.mul_spec(minus) == minus);
            assert(zero.mul_spec(zero) == zero);
            assert(zero.mul_spec(minus) == zero);
            assert(zero.mul_spec(one) == zero);
            assert(one.mul_spec(zero) == zero);
            assert(back.dot_square_spec() == one);
            assert(is_isqrt(ONE_RAW * ONE_RAW, ONE_RAW as int));
            lemma_isqrt_unique(ONE_RAW * ONE_RAW, ONE_RAW as int);
            assert(back.length_spec() == one);
            assert(zero.div_spec(one) == zero);
            assert(minus.div_spec(one) == minus);
            assert(back.unit_spec() == back);
            assert(vup.cross_spec(back) == (Vec3 { x: minus, y: zero, z: zero }));
            assert(vup.cross_spec(back).dot_square_spec() == one);
        }
        Camera::new(
            Scalar::from_int(1),
            100,
            10,
            10,
            Scalar::from_int(90),
            lookfrom,
            lookat,
            vup,
            Scalar::from_int(0),
            Scalar::from_int(10),
        )
    }

    /// The light of the sky in the direction of `r`.
    fn background(r: &Ray) -> (c: Vec3)
        requires
            r.directed(),
        ensures
            c == background_spec(*r),
    {
        let one = Scalar::from_int(1);
        let unit_direction = r.direction().unit();
        let beta = Scalar::from_ratio(1, 2).mul(unit_direction.y().add(one));
        let blue = Vec3::new(Scalar::from_ratio(1, 2), Scalar::from_ratio(7, 10), one);
        Vec3::same(one).mul(one.sub(beta)).add(blue.mul(beta))
    }

    /// The radiance that arrives along the ray `r` after at most `depth`
    /// bounces: nothing once the bounces are used up or where a material
    /// absorbs the ray, the light of the sky where the ray leaves the scene,
    /// and otherwise what the scattered ray gathers, attenuated by the
    /// material.
    pub fn ray_color(r: &Ray, depth: i32, world: &HittableList, rng: &mut RandomSource) -> (c:
        Vec3)
        requires
            world.wf(),
        ensures
            old(rng).deterministic() ==> c == ray_color_spec(
                *r,
                depth as int,
                *world,
                *old(rng),
            ).0,
            old(rng).deterministic() ==> *final(rng) == ray_color_spec(
                *r,
                depth as int,
                *world,
                *old(rng),
            ).1,
            final(rng).deterministic() == old(rng).deterministic(),
            depth <= 0 || !r.directed() ==> c == Vec3::zero_spec() && *final(rng) == *old(rng),
            depth > 0 && r.directed() && world.hit_spec(*r, visible()) is None ==> c
                == background_spec(*r) && *final(rng) == *old(rng),
        decreases depth,
    {
        if depth <= 0 || r.direction().dot_square().raw <= 0 {
            return Vec3::zero();
        }
        let range = Interval::new(Scalar::from_ratio(1, 10000), Scalar::infinity());
        match world.hit(r, range) {
            Some(rec) => {
                match rec.mat.scatter(r, &rec, rng) {
                    Some(s) => {
                        let gathered = Camera::ray_color(&s.scattered, depth - 1, world, rng);
                        s.attenuation.hadamard(gathered)
                    },
                    None => Vec3::zero(),
                }
            },
            None => Camera::background(r),
        }
    }

    /// A random point in the square around a pixel at the origin.
    fn pixel_sample_square(&self, rng: &mut RandomSource) -> (r: Vec3)
        ensures
            exists|a: Scalar, b: Scalar|
                is_draw(a) && is_draw(b) && r == #[trigger] self.sample_square_spec(a, b),
            old(rng).deterministic() ==> r == self.sample_square_spec(
                old(rng).peek(),
                old(rng).advance().peek(),
            ),
            *final(rng) == old(rng).advance().advance(),
    {
        let a = random_double(rng);
        let b = random_double(rng);
        let px = Scalar::from_ratio(-1, 2).add(a);
        let py = Scalar::from_ratio(-1, 2).add(b);
        let r = self.pixel_delta_u.mul(px).add(self.pixel_delta_v.mul(py));
        assert(is_draw(a) && is_draw(b) && r == self.sample_square_spec(a, b));
        r
    }

    /// A random point of the camera's defocus disk.
    fn defocus_disk_sample(&self, rng: &mut RandomSource) -> (r: Vec3)
        ensures
            exists|p: Vec3| in_unit_disk(p) && r == #[trigger] self.disk_point_spec(p),
            old(rng).deterministic() ==> r == self.disk_point_spec(
                random_in_unit_disk_spec(*old(rng), SAMPLE_TRIES as nat).0,
            ),
            old(rng).deterministic() ==> *final(rng) == random_in_unit_disk_spec(
                *old(rng),
                SAMPLE_TRIES as nat,
            ).1,
            final(rng).deterministic() == old(rng).deterministic(),
    {
        let p = Vec3::random_in_unit_disk(rng);
        let r = self.center.add(self.defocus_disk_u.mul(p.x())).add(
            self.defocus_disk_v.mul(p.y()),
        );
        assert(in_unit_disk(p) && r == self.disk_point_spec(p));
        r
    }

    /// A camera ray for the pixel in column `i` and row `j`: it starts at the
    /// camera's center, or at a random point of the defocus disk where the
    /// defocus angle is positive, and runs through a random point of the
    /// pixel's square.
    pub fn get_ray(&self, i: i32, j: i32, rng: &mut RandomSource) -> (r: Ray)
        ensures
            old(rng).deterministic() ==> r == self.get_ray_spec(i as int, j as int, *old(rng)).0,
            old(rng).deterministic() ==> *final(rng) == self.get_ray_spec(
                i as int,
                j as int,
                *old(rng),
            ).1,
            final(rng).deterministic() == old(rng).deterministic(),
            exists|a: Scalar, b: Scalar|
                is_draw(a) && is_draw(b) && r == #[trigger] self.ray_through(
                    i as int,
                    j as int,
                    self.sample_square_spec(a, b),
                    r.origin,
                ),
            self.defocus_angle@ <= 0 ==> r.origin == self.center,
            self.defocus_angle@ > 0 ==> exists|p: Vec3|
                in_unit_disk(p) && r.origin == #[trigger] self.disk_point_spec(p),
    {
        let pixel_center = self.pixel00_loc.add(self.pixel_delta_u.mul(Scalar::from_int(i))).add(
            self.pixel_delta_v.mul(Scalar::from_int(j)),
        );
        let offset = self.pixel_sample_square(rng);
        let pixel_sample = pixel_center.add(offset);
        let ray_origin = if self.defocus_angle.raw <= 0 {
            self.center
        } else {
            self.defocus_disk_sample(rng)
        };
        let r = Ray::new(ray_origin, pixel_sample.sub(ray_origin));
        proof {
            let (a, b) = choose|a: Scalar, b: Scalar|
                is_draw(a) && is_draw(b) && offset == #[trigger] self.sample_square_spec(a, b);
            assert(r == self.ray_through(
                i as int,
                j as int,
                self.sample_square_spec(a, b),
                r.origin,
            ));
        }
        r
    }

    /// The radiance of pixel `(i, j)` summed over the camera's samples.
    pub fn sample_pixel(&self, world: &HittableList, i: i32, j: i32, rng: &mut RandomSource) -> (sum:
        Vec3)
        requires
            self.wf(),
            world.wf(),
        ensures
            old(rng).deterministic() ==> sum == self.samples_spec(
                *world,
                i as int,
                j as int,
                self.samples_per_pixel as nat,
                *old(rng),
            ).0,
            old(rng).deterministic() ==> *final(rng) == self.samples_spec(
                *world,
                i as int,
                j as int,
                self.samples_per_pixel as nat,
                *old(rng),
            ).1,
            final(rng).deterministic() == old(rng).deterministic(),
    {
        let mut pixel_color = Vec3::zero();
        let mut k: i32 = 0;
        while k < self.samples_per_pixel
            invariant
                0 <= k <= self.samples_per_pixel,
                world.wf(),
                rng.deterministic() == old(rng).deterministic(),
                rng.deterministic() ==> pixel_color == self.samples_spec(
                    *world,
                    i as int,
                    j as int,
                    k as nat,
                    *old(rng),
                ).0,
                rng.deterministic() ==> *rng == self.samples_spec(
                    *world,
                    i as int,
                    j as int,
                    k as nat,
                    *old(rng),
                ).1,
            decreases self.samples_per_pixel - k,
        {
            let r = self.get_ray(i, j, rng);
            let c = Camera::ray_color(&r, self.max_depth, world, rng);
            pixel_color.add_assign(c);
            k = k + 1;
        }
        pixel_color
    }

    /// The head of the image's text: `P3`, the width and the height, and `255`.
    pub fn header(&self) -> (out: String)
        requires
            self.wf(),
        ensures
            out@ == self.header_spec(),
    {
        let mut s = String::new();
        proof {
            reveal_strlit("P3\n");
            reveal_strlit(" ");
            reveal_strlit("\n255\n");
        }
        s.append("P3\n");
        push_decimal(&mut s, self.image_width as u32);
        s.append(" ");
        push_decimal(&mut s, self.image_height as u32);
        s.append("\n255\n");
        assert(s@ =~= self.header_spec()) by {
            assert("P3\n"@ =~= seq!['P', '3', '\n']);
            assert(" "@ =~= seq![' ']);
            assert("\n255\n"@ =~= seq!['\n', '2', '5', '5', '\n']);
        }
        s
    }

    /// Renders row `j` of the image and appends its pixels' lines to `s`,
    /// from left to right.
    pub fn render_row(&self, world: &HittableList, j: i32, rng: &mut RandomSource, s: &mut String)
        requires
            self.wf(),
            world.wf(),
        ensures
            old(rng).deterministic() ==> final(s)@ == old(s)@ + self.row_spec(
                *world,
                j as int,
                self.image_width as nat,
                *old(rng),
            ).0,
            old(rng).deterministic() ==> *final(rng) == self.row_spec(
                *world,
                j as int,
                self.image_width as nat,
                *old(rng),
            ).1,
            final(rng).deterministic() == old(rng).deterministic(),
            exists|colors: Seq<Vec3>|
                colors.len() == self.image_width && final(s)@ == old(s)@ + #[trigger] lines_spec(
                    colors,
                    self.samples_per_pixel as int,
                ),
    {
        let mut i: i32 = 0;
        let ghost mut colors = Seq::<Vec3>::empty();
        assert(s@ =~= old(s)@ + lines_spec(colors, self.samples_per_pixel as int));
        while i < self.image_width
            invariant
                0 <= i <= self.image_width,
                self.wf(),
                world.wf(),
                rng.deterministic() == old(rng).deterministic(),
                colors.len() == i,
                s@ == old(s)@ + lines_spec(colors, self.samples_per_pixel as int),
                rng.deterministic() ==> s@ == old(s)@ + self.row_spec(
                    *world,
                    j as int,
                    i as nat,
                    *old(rng),
                ).0,
                rng.deterministic() ==> *rng == self.row_spec(
                    *world,
                    j as int,
                    i as nat,
                    *old(rng),
                ).1,
            decreases self.image_width - i,
        {
            let ghost text = self.row_spec(*world, j as int, i as nat, *old(rng)).0;
            let ghost before = s@;
            let pixel_color = self.sample_pixel(world, i, j, rng);
            write_color(s, pixel_color, self.samples_per_pixel);
            proof {
                let samples = self.samples_per_pixel as int;
                let line = pixel_line(pixel_color, samples);
                lemma_lines_push(colors, pixel_color, samples);
                lemma_join(old(s)@, lines_spec(colors, samples), line);
                colors = colors.push(pixel_color);
                if rng.deterministic() {
                    self.lemma_row_step(*world, j as int, i as nat, *old(rng));
                    lemma_join(old(s)@, text, line);
                }
            }
            i = i + 1;
        }
    }

    /// What to announce once row `j` is rendered: the percentage that counts
    /// as finished from then on, and whether it is worth a message. The
    /// percentage rises by one where the rows above `j` are a larger share of
    /// the image than it says, and it is worth a message where
    /// `log_interval` divides it.
    pub fn progress(&self, j: i32, percentage: i32, log_interval: i32) -> (r: (i32, bool))
        requires
            self.wf(),
            0 <= j < self.image_height,
            percentage >= 0,
            log_interval != 0,
        ensures
            r.0 == self.progress_spec(j as int, percentage as int),
            r.1 == self.announces_spec(j as int, percentage as int, log_interval as int),
    {
        let done: i64 = (j as i64) * 100;
        assert(percentage * self.image_height <= 0x7fff_ffff * 0x7fff_ffff) by (nonlinear_arith)
            requires
                0 <= percentage <= 0x7fff_ffff,
                0 <= self.image_height <= 0x7fff_ffff,
        ;
        assert(percentage * self.image_height >= 0) by (nonlinear_arith)
            requires
                0 <= percentage,
                0 <= self.image_height,
        ;
        let counted: i64 = (percentage as i64) * (self.image_height as i64);
        if done > counted {
            assert(percentage < 100) by (nonlinear_arith)
                requires
                    j * 100 > percentage * self.image_height,
                    0 <= j < self.image_height,
                    percentage >= 0,
            ;
            let step: i64 = if log_interval < 0 {
                -(log_interval as i64)
            } else {
                log_interval as i64
            };
            (percentage + 1, ((percentage + 1) as i64) % step == 0)
        } else {
            (percentage, false)
        }
    }

    /// Renders `world` and returns the image as text: the head
    /// `P3`, width and height, `255`, then one line for each pixel with its
    /// three bytes, row by row from the top and from left to right.
    pub fn render(&self, world: &HittableList, rng: &mut RandomSource) -> (out: String)
        requires
            self.wf(),
            world.wf(),
        ensures
            old(rng).deterministic() ==> out@ == self.image_spec(*world, *old(rng)).0,
            old(rng).deterministic() ==> *final(rng) == self.image_spec(*world, *old(rng)).1,
            final(rng).deterministic() == old(rng).deterministic(),
            exists|colors: Seq<Vec3>|
                colors.len() == self.image_width * self.image_height && out@
                    == self.header_spec() + #[trigger] lines_spec(
                    colors,
                    self.samples_per_pixel as int,
                ),
    {
        let mut s = self.header();
        let mut j: i32 = 0;
        let ghost mut colors = Seq::<Vec3>::empty();
        assert(s@ =~= self.header_spec() + lines_spec(colors, self.samples_per_pixel as int));
        assert(0 * self.image_width == 0);
        while j < self.image_height
            invariant
                0 <= j <= self.image_height,
                self.wf(),
                world.wf(),
                rng.deterministic() == old(rng).deterministic(),
                colors.len() == self.image_width * j,
                s@ == self.header_spec() + lines_spec(colors, self.samples_per_pixel as int),
                rng.deterministic() ==> s@ == self.header_spec() + self.rows_spec(
                    *world,
                    j as nat,
                    *old(rng),
                ).0,
                rng.deterministic() ==> *rng == self.rows_spec(*world, j as nat, *old(rng)).1,
            decreases self.image_height - j,
        {
            let ghost text = self.rows_spec(*world, j as nat, *old(rng)).0;
            let ghost start = *rng;
            let ghost before = s@;
            self.render_row(world, j, rng, &mut s);
            proof {
                let samples = self.samples_per_pixel as int;
                let added = choose|added: Seq<Vec3>|
                    added.len() == self.image_width && s@ == before + #[trigger] lines_spec(
                        added,
                        samples,
                    );
                lemma_lines_concat(colors, added, samples);
                lemma_join(
                    self.header_spec(),
                    lines_spec(colors, samples),
                    lines_spec(added, samples),
                );
                assert(self.image_width * (j + 1) == self.image_width * j + self.image_width)
                    by (nonlinear_arith);
                colors = colors + added;
                if rng.deterministic() {
                    let row = self.row_spec(*world, j as int, self.image_width as nat, start).0;
                    self.lemma_rows_step(*world, j as nat, *old(rng));
                    lemma_join(self.header_spec(), text, row);
                }
            }
            j = j + 1;
        }
        s
    }
}

} // verus!
