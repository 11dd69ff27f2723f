//! The assembly of an image: jittered samples per pixel, averaged and turned
//! into bytes, row by row from the top.

use crate::camera::{camera_ray, Camera, CameraModel};
use crate::color::{lemma_black_level, pixel_rgb, rgb_matches, Rgb};
use crate::fixed::{fx_add, fx_div, fx_max, sat, scale, Fixed};
use crate::hittable::Hittable;
use crate::hittable_list::HittableList;
use crate::random::random_fraction;
use crate::render::{background, lemma_radiance_empty_scene, radiance_possible, ray_color};
use crate::sphere::SphereModel;
use crate::vec3::{in_unit_disk, v3_add, v3_zero, Color, V3};
use vstd::prelude::*;

verus! {

/// Why a configuration is refused.
#[derive(Clone, Copy, Debug, PartialEq, Eq)]
pub enum ConfigError {
    /// The image width is zero or negative.
    ImageWidth,
    /// The image height is zero or negative.
    ImageHeight,
    /// The number of samples per pixel is zero or negative.
    SamplesPerPixel,
    /// The largest number of bounces is negative.
    MaxDepth,
}

/// Size of the image and effort spent on each pixel.
#[derive(Clone, Copy, Debug, PartialEq, Eq)]
pub struct RenderConfig {
    pub image_width: i32,
    pub image_height: i32,
    pub samples_per_pixel: i32,
    pub max_depth: i32,
}

/// The image-plane coordinate of the pixel `index` of `dimension` pixels for
/// the jitter `jitter` of `[0, 1)`: `(index + jitter) / (dimension - 1)`. An
/// image of a single pixel is divided by one.
pub open spec fn coordinate(index: int, jitter: int, dimension: int) -> int {
    fx_div(fx_add(sat(index * scale()), jitter), fx_max(dimension - 1, 1) * scale())
}

/// The random draws behind one sample of a pixel and the light it brought
/// back.
pub struct SampleDraw {
    pub jitter_s: int,
    pub jitter_t: int,
    pub lens: V3,
    pub color: V3,
}

/// Whether `d` is a possible sample of the pixel in column `i` and row `j`:
/// both jitters lie in `[0, 1)`, the lens point lies in the unit disk, and the
/// colour can come back along the camera ray for these draws.
pub open spec fn sample_possible(
    camera: CameraModel,
    scene: Seq<SphereModel>,
    config: RenderConfig,
    i: int,
    j: int,
    d: SampleDraw,
) -> bool {
    &&& 0 <= d.jitter_s < scale()
    &&& 0 <= d.jitter_t < scale()
    &&& in_unit_disk(d.lens)
    &&& radiance_possible(
        camera_ray(
            camera,
            coordinate(i, d.jitter_s, config.image_width as int),
            coordinate(j, d.jitter_t, config.image_height as int),
            d.lens,
        ),
        scene,
        config.max_depth as int,
        d.color,
    )
}

/// Sum of the colours of the samples, added in their order.
pub open spec fn sum_colors(draws: Seq<SampleDraw>) -> V3
    decreases draws.len(),
{
    if draws.len() == 0 {
        v3_zero()
    } else {
        v3_add(sum_colors(draws.drop_last()), draws.last().color)
    }
}

/// Whether `draws` are the samples of one pixel: as many as the configuration
/// asks for, each of them possible.
pub open spec fn draws_possible(
    camera: CameraModel,
    scene: Seq<SphereModel>,
    config: RenderConfig,
    i: int,
    j: int,
    draws: Seq<SampleDraw>,
) -> bool {
    &&& draws.len() == config.samples_per_pixel
    &&& forall|k: int|
        0 <= k < draws.len() ==> sample_possible(camera, scene, config, i, j, #[trigger] draws[k])
}

/// Whether `sum` can be the accumulated colour of the pixel in column `i` and
/// row `j`, for some outcome of the random draws.
pub open spec fn pixel_sum_possible(
    camera: CameraModel,
    scene: Seq<SphereModel>,
    config: RenderConfig,
    i: int,
    j: int,
    sum: V3,
) -> bool {
    exists|draws: Seq<SampleDraw>| #[trigger]
        draws_possible(camera, scene, config, i, j, draws) && sum == sum_colors(draws)
}

/// Whether `rgb` can be the pixel in column `i` and row `j`, for some outcome
/// of the random draws.
pub open spec fn pixel_possible(
    camera: CameraModel,
    scene: Seq<SphereModel>,
    config: RenderConfig,
    i: int,
    j: int,
    rgb: Rgb,
) -> bool {
    exists|sum: V3| #[trigger]
        pixel_sum_possible(camera, scene, config, i, j, sum) && rgb_matches(
            rgb,
            sum,
            config.samples_per_pixel as int,
        )
}

/// Row, counted from the bottom, of the pixel that is emitted at position `k`
/// of an image `width` wide and `height` high: rows come from the top.
pub open spec fn emitted_row(width: int, height: int, k: int) -> int {
    height - 1 - k / width
}

/// Column of the pixel that is emitted at position `k`: each row runs from the
/// left.
pub open spec fn emitted_column(width: int, k: int) -> int {
    k % width
}

/// In a scene without spheres every sample of a pixel is the colour of the
/// sky along its camera ray, as long as one bounce is allowed.
pub proof fn lemma_empty_scene_sample(
    camera: CameraModel,
    config: RenderConfig,
    i: int,
    j: int,
    d: SampleDraw,
)
    requires
        config.max_depth > 0,
        sample_possible(camera, Seq::<SphereModel>::empty(), config, i, j, d),
    ensures
        d.color == background(
            camera_ray(
                camera,
                coordinate(i, d.jitter_s, config.image_width as int),
                coordinate(j, d.jitter_t, config.image_height as int),
                d.lens,
            ),
        ),
{
    lemma_radiance_empty_scene(
        camera_ray(
            camera,
            coordinate(i, d.jitter_s, config.image_width as int),
            coordinate(j, d.jitter_t, config.image_height as int),
            d.lens,
        ),
        config.max_depth as int,
        d.color,
    );
}

/// Samples that are all black add up to black.
pub proof fn lemma_sum_of_black(draws: Seq<SampleDraw>)
    requires
        forall|k: int| 0 <= k < draws.len() ==> (#[trigger] draws[k]).color == v3_zero(),
    ensures
        sum_colors(draws) == v3_zero(),
    decreases draws.len(),
{
    if draws.len() > 0 {
        assert forall|k: int| 0 <= k < draws.drop_last().len() implies (#[trigger] draws.drop_last()[k]).color
            == v3_zero() by {
            assert(draws.drop_last()[k] == draws[k]);
        }
        lemma_sum_of_black(draws.drop_last());
        assert(draws.last() == draws[draws.len() - 1]);
    }
}

/// Where no bounce is allowed every pixel is black, whatever the scene
/// holds.
pub proof fn lemma_no_bounce_black_pixel(
    camera: CameraModel,
    scene: Seq<SphereModel>,
    config: RenderConfig,
    i: int,
    j: int,
    rgb: Rgb,
)
    requires
        config.max_depth == 0,
        config.samples_per_pixel > 0,
        pixel_possible(camera, scene, config, i, j, rgb),
    ensures
        rgb == (Rgb { r: 0, g: 0, b: 0 }),
{
    let sum = choose|sum: V3| #[trigger]
        pixel_sum_possible(camera, scene, config, i, j, sum) && rgb_matches(
            rgb,
            sum,
            config.samples_per_pixel as int,
        );
    let draws = choose|draws: Seq<SampleDraw>| #[trigger]
        draws_possible(camera, scene, config, i, j, draws) && sum == sum_colors(draws);
    assert forall|k: int| 0 <= k < draws.len() implies (#[trigger] draws[k]).color == v3_zero() by {
        assert(sample_possible(camera, scene, config, i, j, draws[k]));
    }
    lemma_sum_of_black(draws);
    lemma_black_level(config.samples_per_pixel as int);
}

impl ConfigError {
    /// A sentence that says what is wrong.
    pub fn message(&self) -> (text: &'static str)
        ensures
            text@ == (match *self {
                ConfigError::ImageWidth => "the image width must be positive"@,
                ConfigError::ImageHeight => "the image height must be positive"@,
                ConfigError::SamplesPerPixel => "the number of samples per pixel must be positive"@,
                ConfigError::MaxDepth => "the largest number of bounces must not be negative"@,
            }),
    {
        match self {
            ConfigError::ImageWidth => "the image width must be positive",
            ConfigError::ImageHeight => "the image height must be positive",
            ConfigError::SamplesPerPixel => "the number of samples per pixel must be positive",
            ConfigError::MaxDepth => "the largest number of bounces must not be negative",
        }
    }
}

impl RenderConfig {
    /// Whether the configuration is valid: the image has at least one pixel
    /// each way, each pixel gets at least one sample, and the number of
    /// bounces is not negative.
    pub open spec fn wf(&self) -> bool {
        &&& self.image_width > 0
        &&& self.image_height > 0
        &&& self.samples_per_pixel > 0
        &&& self.max_depth >= 0
    }

    /// The configuration with the given values, or the first of them that is
    /// out of range, in the order of the parameters.
    pub fn new(image_width: i32, image_height: i32, samples_per_pixel: i32, max_depth: i32) -> (r:
        Result<RenderConfig, ConfigError>)
        ensures
            r == (if image_width <= 0 {
                Err::<RenderConfig, ConfigError>(ConfigError::ImageWidth)
            } else if image_height <= 0 {
                Err(ConfigError::ImageHeight)
            } else if samples_per_pixel <= 0 {
                Err(ConfigError::SamplesPerPixel)
            } else if max_depth < 0 {
                Err(ConfigError::MaxDepth)
            } else {
                Ok(RenderConfig { image_width, image_height, samples_per_pixel, max_depth })
            }),
            r is Ok ==> r.unwrap().wf(),
    {
        if image_width <= 0 {
            Err(ConfigError::ImageWidth)
        } else if image_height <= 0 {
            Err(ConfigError::ImageHeight)
        } else if samples_per_pixel <= 0 {
            Err(ConfigError::SamplesPerPixel)
        } else if max_depth < 0 {
            Err(ConfigError::MaxDepth)
        } else {
            Ok(RenderConfig { image_width, image_height, samples_per_pixel, max_depth })
        }
    }
}

/// The image-plane coordinate of the pixel `index` of `dimension` pixels for
/// the given jitter.
pub fn pixel_coordinate(index: i32, jitter: Fixed, dimension: i32) -> (r: Fixed)
    requires
        dimension >= 1,
    ensures
        r@ == coordinate(index as int, jitter@, dimension as int),
{
    let span: i32 = if dimension > 1 {
        dimension - 1
    } else {
        1
    };
    Fixed::from_int(index).add(jitter).div(Fixed::from_int(span))
}

/// Accumulated colour of the pixel in column `i` and row `j`: the sum of the
/// light that comes back along as many jittered camera rays as the
/// configuration asks for.
pub fn sample_pixel(camera: &Camera, world: &HittableList, config: &RenderConfig, i: i32, j: i32)
    -> (sum: Color)
    requires
        config.wf(),
        world.wf(),
    ensures
        pixel_sum_possible(camera@, world@, *config, i as int, j as int, sum@),
{
    let mut pixel_color = Color::zero();
    let ghost mut draws: Seq<SampleDraw> = Seq::empty();
    let mut n: i32 = 0;
    while n < config.samples_per_pixel
        invariant
            0 <= n <= config.samples_per_pixel,
            config.wf(),
            world.wf(),
            draws.len() == n,
            forall|k: int|
                0 <= k < draws.len() ==> sample_possible(
                    camera@,
                    world@,
                    *config,
                    i as int,
                    j as int,
                    #[trigger] draws[k],
                ),
            pixel_color@ == sum_colors(draws),
        decreases config.samples_per_pixel - n,
    {
        let jitter_s = random_fraction();
        let jitter_t = random_fraction();
        let u = pixel_coordinate(i, jitter_s, config.image_width);
        let v = pixel_coordinate(j, jitter_t, config.image_height);

        let r = camera.get_ray(u, v);
        let color = ray_color(&r, world, config.max_depth);
        pixel_color = pixel_color.add(color);
        proof {
            let lens = choose|lens: V3| #[trigger]
                in_unit_disk(lens) && r@ == camera_ray(camera@, u@, v@, lens);
            let d = SampleDraw { jitter_s: jitter_s@, jitter_t: jitter_t@, lens, color: color@ };
            let ghost before = draws;
            draws = draws.push(d);
            assert(draws.drop_last() =~= before);
            assert(draws.last() == d);
            assert forall|k: int| 0 <= k < draws.len() implies sample_possible(
                camera@,
                world@,
                *config,
                i as int,
                j as int,
                #[trigger] draws[k],
            ) by {
                if k < before.len() {
                    assert(draws[k] == before[k]);
                }
            }
        }
        n = n + 1;
    }
    proof {
        assert(draws_possible(camera@, world@, *config, i as int, j as int, draws));
    }
    pixel_color
}

/// The pixel in column `i` and row `j`.
pub fn render_pixel(camera: &Camera, world: &HittableList, config: &RenderConfig, i: i32, j: i32)
    -> (rgb: Rgb)
    requires
        config.wf(),
        world.wf(),
    ensures
        pixel_possible(camera@, world@, *config, i as int, j as int, rgb),
{
    let sum = sample_pixel(camera, world, config, i, j);
    let rgb = pixel_rgb(sum, config.samples_per_pixel);
    proof {
        assert(pixel_sum_possible(camera@, world@, *config, i as int, j as int, sum@)
            && rgb_matches(rgb, sum@, config.samples_per_pixel as int));
    }
    rgb
}

/// The pixels of row `j`, counted from the bottom, from left to right.
pub fn render_row(camera: &Camera, world: &HittableList, config: &RenderConfig, j: i32) -> (row:
    Vec<Rgb>)
    requires
        config.wf(),
        world.wf(),
    ensures
        row@.len() == config.image_width,
        forall|i: int|
            0 <= i < config.image_width ==> pixel_possible(
                camera@,
                world@,
                *config,
                i,
                j as int,
                #[trigger] row@[i],
            ),
{
    let mut row: Vec<Rgb> = Vec::new();
    let mut i: i32 = 0;
    while i < config.image_width
        invariant
            0 <= i <= config.image_width,
            config.wf(),
            world.wf(),
            row@.len() == i,
            forall|k: int|
                0 <= k < i ==> pixel_possible(
                    camera@,
                    world@,
                    *config,
                    k,
                    j as int,
                    #[trigger] row@[k],
                ),
        decreases config.image_width - i,
    {
        let rgb = render_pixel(camera, world, config, i, j);
        row.push(rgb);
        i = i + 1;
    }
    row
}

/// The whole image in the order in which a plain-text image file lists it:
/// rows from the top to the bottom, each row from left to right.
pub fn render(camera: &Camera, world: &HittableList, config: &RenderConfig) -> (image: Vec<Rgb>)
    requires
        config.wf(),
        world.wf(),
    ensures
        image@.len() == config.image_width * config.image_height,
        forall|k: int|
            0 <= k < image@.len() ==> pixel_possible(
                camera@,
                world@,
                *config,
                emitted_column(config.image_width as int, k),
                emitted_row(config.image_width as int, config.image_height as int, k),
                #[trigger] image@[k],
            ),
{
    let mut image: Vec<Rgb> = Vec::new();
    let mut line: i32 = 0;
    while line < config.image_height
        invariant
            0 <= line <= config.image_height,
            config.wf(),
            world.wf(),
            image@.len() == config.image_width * line,
            forall|k: int|
                0 <= k < image@.len() ==> pixel_possible(
                    camera@,
                    world@,
                    *config,
                    emitted_column(config.image_width as int, k),
                    emitted_row(config.image_width as int, config.image_height as int, k),
                    #[trigger] image@[k],
                ),
        decreases config.image_height - line,
    {
        let j: i32 = config.image_height - 1 - line;
        let mut i: i32 = 0;
        while i < config.image_width
            invariant
                0 <= i <= config.image_width,
                0 <= line < config.image_height,
                j == config.image_height - 1 - line,
                config.wf(),
                world.wf(),
                image@.len() == config.image_width * line + i,
                forall|k: int|
                    0 <= k < image@.len() ==> pixel_possible(
                        camera@,
                        world@,
                        *config,
                        emitted_column(config.image_width as int, k),
                        emitted_row(config.image_width as int, config.image_height as int, k),
                        #[trigger] image@[k],
                    ),
            decreases config.image_width - i,
        {
            let rgb = render_pixel(camera, world, config, i, j);
            proof {
                let w = config.image_width as int;
                let k = line * w + i;
                assert(w * line == line * w) by (nonlinear_arith);
                vstd::arithmetic::div_mod::lemma_fundamental_div_mod_converse(
                    k,
                    w,
                    line as int,
                    i as int,
                );
            }
            image.push(rgb);
            i = i + 1;
        }
        proof {
            assert(config.image_width * line + config.image_width == config.image_width * (line
                + 1)) by (nonlinear_arith);
        }
        line = line + 1;
    }
    image
}

} // verus!
