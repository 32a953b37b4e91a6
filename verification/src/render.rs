//! Light transport: the colour that a ray brings back, and the pixels made
//! of it.

use crate::camera::Camera;
use crate::fixed::Fixed;
use crate::hittable::Hittable;
use crate::image::Color;
use crate::image::Output;
use crate::material::Draw;
use crate::ray::Ray;
use crate::sampling::in_unit_ball;
use crate::sampling::is_fraction;
use crate::sampling::lemma_centre_in_unit_ball;
use crate::sampling::random_fraction;
use crate::vec3::Vec3;
use rand::rngs::StdRng;
use vstd::prelude::*;

verus! {

/// The number of scatterings after which a path is given up as black.
pub const MAX_DEPTH: u32 = 50;

/// Raw representation of `0.001`, the least ray parameter at which a hit
/// counts.  It keeps a scattered ray from hitting the surface it leaves.
pub const T_MIN_RAW: i64 = 16_777;

/// Raw representation of `0.5`.
pub const HALF_RAW: i64 = 0x80_0000;

/// Raw representation of `0.7`.
pub const SEVEN_TENTHS_RAW: i64 = 11_744_051;

/// The colour of the sky overhead: `(0.5, 0.7, 1.0)`.
pub open spec fn spec_sky_blue() -> Vec3 {
    Vec3 {
        x: Fixed { raw: HALF_RAW },
        y: Fixed { raw: SEVEN_TENTHS_RAW },
        z: Fixed::one(),
    }
}

/// The colour `(0.5, 0.7, 1.0)`.
#[verifier::when_used_as_spec(spec_sky_blue)]
pub fn sky_blue() -> (c: Vec3)
    ensures
        c == spec_sky_blue(),
{
    Vec3::new(Fixed::from_raw(HALF_RAW), Fixed::from_raw(SEVEN_TENTHS_RAW), Fixed::one())
}

/// The colour of the background along a ray that hits nothing: the blend
/// `(1 - t) white + t sky_blue` with `t = 0.5 (y + 1)`, where `y` is the
/// height of the ray's unit direction.
pub open spec fn spec_background(ray: &Ray) -> Vec3 {
    let unit = ray.direction.make_unit_vector();
    let t = (Fixed { raw: HALF_RAW }).mul(unit.y.add(Fixed::one()));
    Vec3::from_ints(1, 1, 1).scale(Fixed::one().sub(t)).add(sky_blue().scale(t))
}

/// Computes the colour of the background along a ray.
#[verifier::when_used_as_spec(spec_background)]
pub fn background(ray: &Ray) -> (c: Vec3)
    ensures
        c == spec_background(ray),
{
    let unit = ray.direction.make_unit_vector();
    let t = Fixed::from_raw(HALF_RAW).mul(unit.y.add(Fixed::one()));
    Vec3::from_ints(1, 1, 1).scale(Fixed::one().sub(t)).add(sky_blue().scale(t))
}

/// The draw that decides nothing: the centre of the ball and the coin zero.
pub open spec fn spec_neutral_draw() -> Draw {
    Draw { bounce: Vec3::from_ints(0, 0, 0), coin: Fixed::zero() }
}

/// The neutral draw.
#[verifier::when_used_as_spec(spec_neutral_draw)]
pub fn neutral_draw() -> (d: Draw)
    ensures
        d == spec_neutral_draw(),
        d.wf(),
{
    proof {
        lemma_centre_in_unit_ball();
    }
    Draw { bounce: Vec3::from_ints(0, 0, 0), coin: Fixed::zero() }
}

/// The random numbers for the scattering at depth `depth`: the entry of the
/// table at that place, and the neutral draw where the table is shorter.
pub open spec fn draw_at(draws: Seq<Draw>, depth: nat) -> Draw {
    if depth < draws.len() {
        draws[depth as int]
    } else {
        neutral_draw()
    }
}

/// Whether every draw of the table is well formed.
pub open spec fn all_wf(draws: Seq<Draw>) -> bool {
    forall|i: int| 0 <= i < draws.len() ==> (#[trigger] draws[i]).wf()
}

/// The colour that comes back along `ray` through the scene `world`, where
/// the path has scattered `depth` times before and scatters at each depth
/// with the random numbers that `draws` holds for it.
///
/// A ray that hits nothing brings the background.  At a hit, the material
/// either absorbs the ray, which then brings what the material emits, or
/// scatters it.  A ray scattered at depth `MAX_DEPTH` or beyond brings
/// black; before that it brings the colour of the scattered ray at the
/// next depth, multiplied channel by channel by the attenuation.
pub open spec fn spec_color(world: &Hittable, ray: Ray, depth: nat, draws: Seq<Draw>) -> Vec3
    decreases MAX_DEPTH - depth,
{
    match world.spec_hit(&ray, Fixed { raw: T_MIN_RAW }, Fixed::max_value()) {
        Some(hit) => match hit.material.spec_scatter_with(&ray, &hit, &draw_at(draws, depth)) {
            Some((scattered, attenuation)) => if depth >= MAX_DEPTH {
                Vec3::from_ints(0, 0, 0)
            } else {
                attenuation.make_comp_mul(&spec_color(world, scattered, depth + 1, draws))
            },
            None => hit.material.spec_emitted(Fixed::zero(), Fixed::zero(), hit.point),
        },
        None => background(&ray),
    }
}

/// Traces `ray` with given random numbers: the scattering at each depth
/// uses the entry of `draws` at that place.
pub fn color_with(ray: Ray, world: &Hittable, depth: u32, draws: &Vec<Draw>) -> (c: Vec3)
    ensures
        c == spec_color(world, ray, depth as nat, draws@),
    decreases MAX_DEPTH - depth,
{
    match world.hit(&ray, Fixed::from_raw(T_MIN_RAW), Fixed::max_value()) {
        Some(hit) => {
            let neutral = neutral_draw();
            let draw = if (depth as usize) < draws.len() {
                &draws[depth as usize]
            } else {
                &neutral
            };
            match hit.material.scatter_with(&ray, &hit, draw) {
                Some((scattered, attenuation)) => {
                    if depth >= MAX_DEPTH {
                        Vec3::from_ints(0, 0, 0)
                    } else {
                        attenuation.make_comp_mul(&color_with(scattered, world, depth + 1, draws))
                    }
                },
                None => hit.material.emitted(Fixed::zero(), Fixed::zero(), hit.point),
            }
        },
        None => background(&ray),
    }
}

/// The colour along a ray depends only on the draws from its depth on.
pub proof fn lemma_color_frame(
    world: &Hittable,
    ray: Ray,
    depth: nat,
    first: Seq<Draw>,
    second: Seq<Draw>,
)
    requires
        forall|d: nat| d >= depth ==> draw_at(first, d) == draw_at(second, d),
    ensures
        spec_color(world, ray, depth, first) == spec_color(world, ray, depth, second),
    decreases MAX_DEPTH - depth,
{
    assert(draw_at(first, depth) == draw_at(second, depth));
    match world.spec_hit(&ray, Fixed { raw: T_MIN_RAW }, Fixed::max_value()) {
        Some(hit) => match hit.material.spec_scatter_with(&ray, &hit, &draw_at(first, depth)) {
            Some((scattered, attenuation)) => {
                if depth < MAX_DEPTH {
                    lemma_color_frame(world, scattered, depth + 1, first, second);
                }
            },
            None => {},
        },
        None => {},
    }
}

/// Traces `ray`, drawing the random numbers from `rng` as the path goes.
/// The result is the colour for some table of well-formed draws.
pub fn color(ray: Ray, world: &Hittable, depth: u32, rng: &mut StdRng) -> (c: Vec3)
    ensures
        exists|draws: Seq<Draw>|
            all_wf(draws) && c == #[trigger] spec_color(world, ray, depth as nat, draws),
    decreases MAX_DEPTH - depth,
{
    proof {
        lemma_centre_in_unit_ball();
    }
    match world.hit(&ray, Fixed::from_raw(T_MIN_RAW), Fixed::max_value()) {
        Some(hit) => {
            let scattering = hit.material.scatter(&ray, &hit, rng);
            let ghost draw = choose|draw: Draw|
                draw.wf() && scattering == hit.material.spec_scatter_with(&ray, &hit, &draw);
            let ghost single = Seq::new((depth + 1) as nat, |i: int| draw);
            proof {
                assert(all_wf(single));
                assert(draw_at(single, depth as nat) == draw);
            }
            match scattering {
                Some((scattered, attenuation)) => {
                    if depth >= MAX_DEPTH {
                        let c = Vec3::from_ints(0, 0, 0);
                        assert(c == spec_color(world, ray, depth as nat, single));
                        c
                    } else {
                        let rest = color(scattered, world, depth + 1, rng);
                        let c = attenuation.make_comp_mul(&rest);
                        proof {
                            let later = choose|draws: Seq<Draw>|
                                all_wf(draws) && rest == #[trigger] spec_color(
                                    world,
                                    scattered,
                                    (depth + 1) as nat,
                                    draws,
                                );
                            let length = if later.len() > depth + 1 {
                                later.len()
                            } else {
                                (depth + 1) as nat
                            };
                            let table = Seq::new(
                                length,
                                |i: int|
                                    if i == depth {
                                        draw
                                    } else {
                                        draw_at(later, i as nat)
                                    },
                            );
                            assert(all_wf(table));
                            assert(draw_at(table, depth as nat) == draw);
                            lemma_color_frame(world, scattered, (depth + 1) as nat, table, later);
                            assert(c == spec_color(world, ray, depth as nat, table));
                        }
                        c
                    }
                },
                None => {
                    let c = hit.material.emitted(Fixed::zero(), Fixed::zero(), hit.point);
                    assert(c == spec_color(world, ray, depth as nat, single));
                    c
                },
            }
        },
        None => {
            let c = background(&ray);
            assert(all_wf(Seq::<Draw>::empty()));
            assert(c == spec_color(world, ray, depth as nat, Seq::<Draw>::empty()));
            c
        },
    }
}

/// A path ends at the depth limit: a ray that is scattered at depth
/// `MAX_DEPTH` or beyond brings black, whatever the scattered ray would
/// meet.
pub proof fn lemma_depth_limit(world: &Hittable, ray: Ray, depth: nat, draws: Seq<Draw>)
    requires
        depth >= MAX_DEPTH,
        world.spec_hit(&ray, Fixed { raw: T_MIN_RAW }, Fixed::max_value()) matches Some(hit)
            && hit.material.spec_scatter_with(&ray, &hit, &draw_at(draws, depth)) is Some,
    ensures
        spec_color(world, ray, depth, draws) == Vec3::from_ints(0, 0, 0),
{
}

/// Whether `ray` hits a shape of `world` whose material scatters it with
/// the random numbers `draw` into a ray that is `inside` again.
pub open spec fn stays_inside(
    world: &Hittable,
    inside: spec_fn(Ray) -> bool,
    ray: Ray,
    draw: Draw,
) -> bool {
    world.spec_hit(&ray, Fixed { raw: T_MIN_RAW }, Fixed::max_value()) matches Some(hit)
        && hit.material.spec_scatter_with(&ray, &hit, &draw) matches Some(scattering) && inside(
        scattering.0,
    )
}

/// In a scene that lets no ray escape and absorbs none, such as the inside
/// of a mirrored sphere, every ray brings black: the path is cut off at the
/// depth limit, and black times any attenuation is black.
///
/// The rays that the scene keeps are given by `inside`: each of them hits
/// something that scatters it, whatever the random numbers, into a ray that
/// is inside again.
pub proof fn lemma_closed_scene_is_black(
    world: &Hittable,
    inside: spec_fn(Ray) -> bool,
    ray: Ray,
    depth: nat,
    draws: Seq<Draw>,
)
    requires
        inside(ray),
        forall|any: Ray, draw: Draw|
            inside(any) ==> #[trigger] stays_inside(world, inside, any, draw),
    ensures
        spec_color(world, ray, depth, draws) == Vec3::from_ints(0, 0, 0),
    decreases MAX_DEPTH - depth,
{
    assert(stays_inside(world, inside, ray, draw_at(draws, depth)));
    if depth < MAX_DEPTH {
        let hit = world.spec_hit(&ray, Fixed { raw: T_MIN_RAW }, Fixed::max_value())->Some_0;
        let scattering = hit.material.spec_scatter_with(&ray, &hit, &draw_at(draws, depth))->Some_0;
        lemma_closed_scene_is_black(world, inside, scattering.0, depth + 1, draws);
        let attenuation = scattering.1;
        assert(attenuation.x.raw * 0 == 0 && attenuation.y.raw * 0 == 0 && attenuation.z.raw * 0
            == 0);
    }
}

/// The horizontal viewport coordinate of a sample in the pixel column `i`
/// of a picture `cols` pixels wide: `(i + jitter) / cols`.
pub open spec fn spec_viewport_u(i: u32, jitter: Fixed, cols: u32) -> Fixed {
    Fixed::from_u32(i).add(jitter).div(Fixed::from_u32(cols))
}

/// Computes the horizontal viewport coordinate of a sample.
#[verifier::when_used_as_spec(spec_viewport_u)]
pub fn viewport_u(i: u32, jitter: Fixed, cols: u32) -> (u: Fixed)
    ensures
        u == spec_viewport_u(i, jitter, cols),
{
    Fixed::from_u32(i).add(jitter).div(Fixed::from_u32(cols))
}

/// The vertical viewport coordinate of a sample in the pixel row `j`,
/// counted from the top, of a picture `rows` pixels high:
/// `(rows - (j + jitter)) / rows`.
pub open spec fn spec_viewport_v(j: u32, jitter: Fixed, rows: u32) -> Fixed {
    Fixed::from_u32(rows).sub(Fixed::from_u32(j).add(jitter)).div(Fixed::from_u32(rows))
}

/// Computes the vertical viewport coordinate of a sample.
#[verifier::when_used_as_spec(spec_viewport_v)]
pub fn viewport_v(j: u32, jitter: Fixed, rows: u32) -> (v: Fixed)
    ensures
        v == spec_viewport_v(j, jitter, rows),
{
    Fixed::from_u32(rows).sub(Fixed::from_u32(j).add(jitter)).div(Fixed::from_u32(rows))
}

/// The size of a picture and the number of samples per pixel.
#[derive(Clone, Copy, Debug, PartialEq, Eq, Structural)]
pub struct Frame {
    pub rows: u32,
    pub cols: u32,
    pub samples: u32,
}

/// The random numbers of one sample of a pixel.
#[derive(Debug)]
pub struct SampleDraw {
    /// The offset of the sample within the pixel, horizontally.
    pub jitter_u: Fixed,
    /// The offset of the sample within the pixel, vertically.
    pub jitter_v: Fixed,
    /// The point of the unit disk at which the ray leaves the lens.
    pub lens: Vec3,
    /// The random numbers of the scatterings along the path.
    pub path: Vec<Draw>,
}

impl SampleDraw {
    /// Whether the jitters are fractions, the lens point lies in the unit
    /// disk, and the draws along the path are well formed.
    pub open spec fn wf(&self) -> bool {
        &&& is_fraction(self.jitter_u)
        &&& is_fraction(self.jitter_v)
        &&& in_unit_ball(self.lens)
        &&& self.lens.z.raw == 0
        &&& all_wf(self.path@)
    }
}

/// The colour of one sample of the pixel in column `i` and row `j`: that
/// of the camera's ray through the jittered viewport coordinates.
pub open spec fn spec_sample_with(
    frame: Frame,
    camera: &Camera,
    world: &Hittable,
    i: u32,
    j: u32,
    jitter_u: Fixed,
    jitter_v: Fixed,
    lens: Vec3,
    path: Seq<Draw>,
) -> Vec3 {
    spec_color(
        world,
        camera.ray_through(
            viewport_u(i, jitter_u, frame.cols),
            viewport_v(j, jitter_v, frame.rows),
            lens,
        ),
        0,
        path,
    )
}

/// Traces one sample of a pixel with given random numbers.
pub fn sample_with(
    frame: Frame,
    camera: &Camera,
    world: &Hittable,
    i: u32,
    j: u32,
    draw: &SampleDraw,
) -> (c: Vec3)
    ensures
        c == spec_sample_with(
            frame,
            camera,
            world,
            i,
            j,
            draw.jitter_u,
            draw.jitter_v,
            draw.lens,
            draw.path@,
        ),
{
    let u = viewport_u(i, draw.jitter_u, frame.cols);
    let v = viewport_v(j, draw.jitter_v, frame.rows);
    let ray = camera.ray_through(u, v, draw.lens);
    color_with(ray, world, 0, &draw.path)
}

/// Whether `c` is the colour of a sample of the pixel `(i, j)` for some
/// well-formed random numbers.
pub open spec fn is_sample(
    frame: Frame,
    camera: &Camera,
    world: &Hittable,
    i: u32,
    j: u32,
    c: Vec3,
) -> bool {
    exists|jitter_u: Fixed, jitter_v: Fixed, lens: Vec3, path: Seq<Draw>|
        {
            &&& is_fraction(jitter_u)
            &&& is_fraction(jitter_v)
            &&& in_unit_ball(lens)
            &&& lens.z.raw == 0
            &&& all_wf(path)
            &&& c == #[trigger] spec_sample_with(
                frame,
                camera,
                world,
                i,
                j,
                jitter_u,
                jitter_v,
                lens,
                path,
            )
        }
}

/// Traces one sample of the pixel `(i, j)`, drawing its random numbers
/// from `rng`: the two jitters, then the lens point, then the path's.
pub fn sample(
    frame: Frame,
    camera: &Camera,
    world: &Hittable,
    i: u32,
    j: u32,
    rng: &mut StdRng,
) -> (c: Vec3)
    ensures
        is_sample(frame, camera, world, i, j, c),
{
    let jitter_u = random_fraction(rng);
    let u = viewport_u(i, jitter_u, frame.cols);
    let jitter_v = random_fraction(rng);
    let v = viewport_v(j, jitter_v, frame.rows);
    let ray = camera.get_ray(u, v, rng);
    let c = color(ray, world, 0, rng);
    proof {
        let lens = choose|lens: Vec3|
            in_unit_ball(lens) && lens.z.raw == 0 && ray == #[trigger] camera.spec_ray_through(
                u,
                v,
                lens,
            );
        let path = choose|draws: Seq<Draw>|
            all_wf(draws) && c == #[trigger] spec_color(world, ray, 0, draws);
        assert(c == spec_sample_with(frame, camera, world, i, j, jitter_u, jitter_v, lens, path));
    }
    c
}

/// The sum of the colours `colors`, added up from the first to the last.
pub open spec fn total(colors: Seq<Vec3>) -> Vec3
    decreases colors.len(),
{
    if colors.len() == 0 {
        Vec3::from_ints(0, 0, 0)
    } else {
        total(colors.drop_last()).add(colors.last())
    }
}

/// The pixel for the sum `sum` of the colours of `samples` samples: the
/// mean `sum * (1 / samples)`, gamma-corrected by a square root per
/// channel, and spread over the levels of a byte.
pub open spec fn spec_resolve(sum: Vec3, samples: u32) -> Color {
    Color::from_normalized_vec3(
        sum.scale(Fixed::one().div(Fixed::from_u32(samples))).gamma_two(),
    )
}

/// Turns the sum of the samples' colours into a pixel.
#[verifier::when_used_as_spec(spec_resolve)]
pub fn resolve(sum: Vec3, samples: u32) -> (c: Color)
    ensures
        c == spec_resolve(sum, samples),
{
    let unsum = sum.scale(Fixed::one().div(Fixed::from_u32(samples)));
    Color::from_normalized_vec3(unsum.gamma_two())
}

/// Whether `c` is the pixel `(i, j)` of the picture for some random
/// numbers: the resolved sum of `frame.samples` samples of that pixel.
pub open spec fn is_pixel(
    frame: Frame,
    camera: &Camera,
    world: &Hittable,
    i: u32,
    j: u32,
    c: Color,
) -> bool {
    exists|colors: Seq<Vec3>|
        {
            &&& colors.len() == frame.samples
            &&& forall|k: int|
                0 <= k < colors.len() ==> is_sample(frame, camera, world, i, j, #[trigger] colors[k])
            &&& c == resolve(#[trigger] total(colors), frame.samples)
        }
}

/// Renders the pixel in column `i` and row `j`: traces `frame.samples`
/// jittered samples and resolves their sum.
pub fn render_pixel(
    frame: Frame,
    camera: &Camera,
    world: &Hittable,
    i: u32,
    j: u32,
    rng: &mut StdRng,
) -> (c: Color)
    ensures
        is_pixel(frame, camera, world, i, j, c),
{
    let mut sum = Vec3::from_ints(0, 0, 0);
    let ghost mut colors: Seq<Vec3> = Seq::empty();
    let mut k: u32 = 0;
    while k < frame.samples
        invariant
            k <= frame.samples,
            colors.len() == k,
            sum == total(colors),
            forall|n: int|
                0 <= n < colors.len() ==> is_sample(frame, camera, world, i, j, #[trigger] colors[n]),
        decreases frame.samples - k,
    {
        let one = sample(frame, camera, world, i, j, rng);
        proof {
            let longer = colors.push(one);
            assert(longer.drop_last() =~= colors);
            colors = longer;
        }
        sum = sum.add(one);
        k += 1;
    }
    resolve(sum, frame.samples)
}

/// Renders the rows from `start` up to but not including `end`, from the
/// top down and each from left to right.
///
/// The result holds `frame.cols` pixels for each row; the pixel in column
/// `i` of row `j` stands at the place `(j - start) * cols + i`.
pub fn render_rows(
    frame: Frame,
    camera: &Camera,
    world: &Hittable,
    start: u32,
    end: u32,
    rng: &mut StdRng,
) -> (pixels: Vec<Color>)
    requires
        start <= end,
    ensures
        pixels@.len() == (end - start) * frame.cols,
        forall|j: int, i: int|
            start <= j < end && 0 <= i < frame.cols ==> is_pixel(
                frame,
                camera,
                world,
                i as u32,
                j as u32,
                #[trigger] pixels@[(j - start) * frame.cols + i],
            ),
{
    let mut pixels: Vec<Color> = Vec::new();
    let mut j: u32 = start;
    while j < end
        invariant
            start <= j <= end,
            pixels@.len() == (j - start) * frame.cols,
            forall|row: int, col: int|
                start <= row < j && 0 <= col < frame.cols ==> is_pixel(
                    frame,
                    camera,
                    world,
                    col as u32,
                    row as u32,
                    #[trigger] pixels@[(row - start) * frame.cols + col],
                ),
        decreases end - j,
    {
        let ghost base = pixels@.len();
        let ghost before = pixels@;
        let mut i: u32 = 0;
        while i < frame.cols
            invariant
                start <= j < end,
                i <= frame.cols,
                base == (j - start) * frame.cols,
                pixels@.len() == base + i,
                forall|row: int, col: int|
                    start <= row < j && 0 <= col < frame.cols ==> is_pixel(
                        frame,
                        camera,
                        world,
                        col as u32,
                        row as u32,
                        #[trigger] pixels@[(row - start) * frame.cols + col],
                    ),
                forall|col: int|
                    0 <= col < i ==> is_pixel(
                        frame,
                        camera,
                        world,
                        col as u32,
                        j,
                        #[trigger] pixels@[base + col],
                    ),
            decreases frame.cols - i,
        {
            let pixel = render_pixel(frame, camera, world, i, j, rng);
            let ghost old_pixels = pixels@;
            pixels.push(pixel);
            proof {
                assert forall|row: int, col: int|
                    start <= row < j && 0 <= col < frame.cols implies is_pixel(
                    frame,
                    camera,
                    world,
                    col as u32,
                    row as u32,
                    #[trigger] pixels@[(row - start) * frame.cols + col],
                ) by {
                    lemma_place_in_rows(row - start, col, j - start, frame.cols as int);
                    assert(pixels@[(row - start) * frame.cols + col] == old_pixels[(row - start)
                        * frame.cols + col]);
                }
                assert forall|col: int| 0 <= col < i + 1 implies is_pixel(
                    frame,
                    camera,
                    world,
                    col as u32,
                    j,
                    #[trigger] pixels@[base + col],
                ) by {
                    if col < i {
                        assert(pixels@[base + col] == old_pixels[base + col]);
                    }
                }
            }
            i += 1;
        }
        proof {
            assert((j + 1 - start) * frame.cols == base + frame.cols) by (nonlinear_arith)
                requires
                    base == (j - start) * frame.cols,
            ;
            assert forall|row: int, col: int|
                start <= row < j + 1 && 0 <= col < frame.cols implies is_pixel(
                frame,
                camera,
                world,
                col as u32,
                row as u32,
                #[trigger] pixels@[(row - start) * frame.cols + col],
            ) by {
                if row == j {
                    assert(pixels@[(row - start) * frame.cols + col] == pixels@[base + col]);
                }
            }
        }
        j += 1;
    }
    pixels
}

/// Renders the whole picture in one piece, from the top row down.
///
/// The picture holds `frame.cols` pixels for each of the `frame.rows` rows;
/// the pixel in column `i` of row `j` stands at the place `j * cols + i`.
pub fn render_picture(frame: Frame, camera: &Camera, world: &Hittable, rng: &mut StdRng) -> (out:
    Output)
    ensures
        out.rows == frame.rows,
        out.cols == frame.cols,
        out.colors@.len() == frame.rows * frame.cols,
        forall|j: int, i: int|
            0 <= j < frame.rows && 0 <= i < frame.cols ==> is_pixel(
                frame,
                camera,
                world,
                i as u32,
                j as u32,
                #[trigger] out.colors@[j * frame.cols + i],
            ),
{
    let colors = render_rows(frame, camera, world, 0, frame.rows, rng);
    proof {
        assert forall|j: int, i: int| 0 <= j < frame.rows && 0 <= i < frame.cols implies is_pixel(
            frame,
            camera,
            world,
            i as u32,
            j as u32,
            #[trigger] colors@[j * frame.cols + i],
        ) by {
            assert(colors@[(j - 0) * frame.cols + i] == colors@[j * frame.cols + i]);
        }
    }
    Output { rows: frame.rows, cols: frame.cols, colors }
}

/// The place `row * cols + col` lies before the start of row `rows`.
proof fn lemma_place_in_rows(row: int, col: int, rows: int, cols: int)
    requires
        0 <= row < rows,
        0 <= col < cols,
    ensures
        0 <= row * cols + col < rows * cols,
{
    assert(0 <= row * cols + col < rows * cols) by (nonlinear_arith)
        requires
            0 <= row < rows,
            0 <= col < cols,
    ;
}

} // verus!
