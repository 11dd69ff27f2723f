//! A scene to look at: a ground, a grid of small random spheres and three
//! large ones.

use crate::fixed::{fx_add, fx_mul, sat, scale, tdiv, Fixed};
use crate::hittable_list::{scene_wf, HittableList};
use crate::material::{Dielectric, Lambertian, MaterialKind, MaterialModel, Metal};
use crate::random::random_fraction;
use crate::render::HALF_RAW;
use crate::sphere::{sphere_wf, Sphere, SphereModel};
use crate::vec3::{
    in_unit_cube, v3_length, v3_mul, v3_spread, v3_sub, Color, Point3, Vec3, V3,
};
use vstd::prelude::*;

verus! {

/// Raw value of the fraction `num / den`, rounded toward zero.
pub open spec fn ratio(num: int, den: int) -> int {
    sat(tdiv(num * scale(), den))
}

/// Raw values of the fractions that the scene is made of.
pub proof fn lemma_scene_ratios()
    ensures
        ratio(1, 5) == 858993459,
        ratio(3, 2) == 6442450944,
        ratio(9, 10) == 3865470566,
        ratio(4, 5) == 3435973836,
        ratio(19, 20) == 4080218931,
{
    assert(1 * scale() == 4294967296);
    assert(3 * scale() == 12884901888);
    assert(9 * scale() == 38654705664);
    assert(4 * scale() == 17179869184);
    assert(19 * scale() == 81604378624);
    assert(4294967296int / 5 == 858993459);
    assert(12884901888int / 2 == 6442450944);
    assert(38654705664int / 10 == 3865470566);
    assert(17179869184int / 5 == 3435973836);
    assert(81604378624int / 20 == 4080218931);
}

/// The random numbers behind one small sphere, each of `[0, 1)`.
pub struct SmallDraw {
    /// Decides the material.
    pub choose_mat: int,
    /// Moves the centre along x.
    pub jitter_x: int,
    /// Moves the centre along z.
    pub jitter_z: int,
    /// First colour.
    pub first: V3,
    /// Second colour.
    pub second: V3,
    /// Roughness of a metal.
    pub fuzz: int,
}

/// Whether every number of the draw lies in `[0, 1)`.
pub open spec fn small_draw_valid(d: SmallDraw) -> bool {
    &&& 0 <= d.choose_mat < scale()
    &&& 0 <= d.jitter_x < scale()
    &&& 0 <= d.jitter_z < scale()
    &&& in_unit_cube(d.first)
    &&& in_unit_cube(d.second)
    &&& 0 <= d.fuzz < scale()
}

/// Centre of the small sphere of the grid cell `(a, b)`:
/// `(a + 0.9 jitter_x, 0.2, b + 0.9 jitter_z)`.
pub open spec fn small_center(a: int, b: int, d: SmallDraw) -> V3 {
    V3 {
        x: fx_add(sat(a * scale()), fx_mul(ratio(9, 10), d.jitter_x)),
        y: ratio(1, 5),
        z: fx_add(sat(b * scale()), fx_mul(ratio(9, 10), d.jitter_z)),
    }
}

/// Whether a small sphere about `center` stays clear of the large sphere at
/// `(4, 1, 0)`: the centre lies more than 0.9 from `(4, 0.2, 0)`.
pub open spec fn stays_clear(center: V3) -> bool {
    v3_length(v3_sub(center, V3 { x: 4 * scale(), y: ratio(1, 5), z: 0 })) > ratio(9, 10)
}

/// Material of a small sphere: diffuse with the product of the two colours
/// where `choose_mat < 0.8`, else metal with a colour of `[0.5, 1)^3` and a
/// roughness of `[0, 0.5)` where `choose_mat < 0.95`, else glass of index 1.5.
pub open spec fn small_material(d: SmallDraw) -> MaterialModel {
    if d.choose_mat < ratio(4, 5) {
        MaterialModel::Lambertian { albedo: v3_mul(d.first, d.second) }
    } else if d.choose_mat < ratio(19, 20) {
        MaterialModel::Metal {
            albedo: v3_spread(HALF_RAW as int, scale(), d.first),
            fuzz: fx_mul(HALF_RAW as int, d.fuzz),
        }
    } else {
        MaterialModel::Dielectric { ir: ratio(3, 2) }
    }
}

/// The small sphere of the grid cell `(a, b)`, of radius 0.2, or none where
/// it would not stay clear of the large sphere.
pub open spec fn small_sphere_model(a: int, b: int, d: SmallDraw) -> Option<SphereModel> {
    let center = small_center(a, b, d);
    if stays_clear(center) {
        Some(SphereModel { center, radius: ratio(1, 5), material: small_material(d) })
    } else {
        None
    }
}

/// The ground: a grey diffuse sphere of radius 1000 about `(0, -1000, 0)`.
pub open spec fn ground_model() -> SphereModel {
    SphereModel {
        center: V3 { x: 0, y: -1000 * scale(), z: 0 },
        radius: 1000 * scale(),
        material: MaterialModel::Lambertian {
            albedo: V3 { x: HALF_RAW as int, y: HALF_RAW as int, z: HALF_RAW as int },
        },
    }
}

/// The glass sphere of radius 1 about `(0, 1, 0)`.
pub open spec fn glass_ball_model() -> SphereModel {
    SphereModel {
        center: V3 { x: 0, y: scale(), z: 0 },
        radius: scale(),
        material: MaterialModel::Dielectric { ir: ratio(3, 2) },
    }
}

/// The brown diffuse sphere of radius 1 about `(-4, 1, 0)`, of the colour
/// `(0.4, 0.2, 0.1)`.
pub open spec fn matte_ball_model() -> SphereModel {
    SphereModel {
        center: V3 { x: -4 * scale(), y: scale(), z: 0 },
        radius: scale(),
        material: MaterialModel::Lambertian {
            albedo: V3 { x: ratio(2, 5), y: ratio(1, 5), z: ratio(1, 10) },
        },
    }
}

/// The polished metal sphere of radius 1 about `(4, 1, 0)`, of the colour
/// `(0.7, 0.6, 0.5)`.
pub open spec fn metal_ball_model() -> SphereModel {
    SphereModel {
        center: V3 { x: 4 * scale(), y: scale(), z: 0 },
        radius: scale(),
        material: MaterialModel::Metal {
            albedo: V3 { x: ratio(7, 10), y: ratio(3, 5), z: ratio(1, 2) },
            fuzz: 0,
        },
    }
}

/// The small sphere of the grid cell `(a, b)` for the given random numbers,
/// or none where it would not stay clear of the large sphere.
pub fn small_sphere(
    a: i32,
    b: i32,
    choose_mat: Fixed,
    jitter_x: Fixed,
    jitter_z: Fixed,
    first: Color,
    second: Color,
    fuzz: Fixed,
) -> (s: Option<Sphere>)
    ensures
        ({
            let d = SmallDraw {
                choose_mat: choose_mat@,
                jitter_x: jitter_x@,
                jitter_z: jitter_z@,
                first: first@,
                second: second@,
                fuzz: fuzz@,
            };
            match s {
                Some(sphere) => small_sphere_model(a as int, b as int, d) == Some(sphere@),
                None => small_sphere_model(a as int, b as int, d) is None,
            }
        }),
        s is Some ==> sphere_wf(s.unwrap()@),
{
    proof {
        lemma_scene_ratios();
    }
    let spread = Fixed::from_ratio(9, 10);
    let height = Fixed::from_ratio(1, 5);
    let center = Point3::new(
        Fixed::from_int(a).add(spread.mul(jitter_x)),
        height,
        Fixed::from_int(b).add(spread.mul(jitter_z)),
    );
    if !spread.lt(center.sub(Point3::new(Fixed::from_int(4), height, Fixed::zero())).length()) {
        return None;
    }
    let half = Fixed::from_raw(HALF_RAW);
    let sphere_material = if choose_mat.lt(Fixed::from_ratio(4, 5)) {
        MaterialKind::Lambertian(Lambertian::new(first.mul(second)))
    } else if choose_mat.lt(Fixed::from_ratio(19, 20)) {
        let albedo = Vec3::spread(half, Fixed::one(), first);
        MaterialKind::Metal(Metal { albedo, fuzz: half.mul(fuzz) })
    } else {
        MaterialKind::Dielectric(Dielectric::new(Fixed::from_ratio(3, 2)))
    };
    Some(Sphere::new(center, Fixed::from_ratio(1, 5), sphere_material))
}

/// The ground.
pub fn ground() -> (s: Sphere)
    ensures
        s@ == ground_model(),
        sphere_wf(s@),
{
    let half = Fixed::from_raw(HALF_RAW);
    Sphere::new(
        Point3::new(Fixed::zero(), Fixed::from_int(-1000), Fixed::zero()),
        Fixed::from_int(1000),
        MaterialKind::Lambertian(Lambertian::new(Color::new(half, half, half))),
    )
}

/// The three large spheres: glass, matte and metal.
pub fn large_spheres() -> (s: (Sphere, Sphere, Sphere))
    ensures
        s.0@ == glass_ball_model(),
        s.1@ == matte_ball_model(),
        s.2@ == metal_ball_model(),
        sphere_wf(s.0@),
        sphere_wf(s.1@),
        sphere_wf(s.2@),
{
    proof {
        lemma_scene_ratios();
    }
    let zero = Fixed::zero();
    let one = Fixed::one();
    let material1 = MaterialKind::Dielectric(Dielectric::new(Fixed::from_ratio(3, 2)));
    let material2 = MaterialKind::Lambertian(
        Lambertian::new(
            Color::new(Fixed::from_ratio(2, 5), Fixed::from_ratio(1, 5), Fixed::from_ratio(1, 10)),
        ),
    );
    let material3 = MaterialKind::Metal(
        Metal::new(
            Color::new(Fixed::from_ratio(7, 10), Fixed::from_ratio(3, 5), Fixed::from_ratio(1, 2)),
            zero,
        ),
    );
    (
        Sphere::new(Point3::new(zero, one, zero), one, material1),
        Sphere::new(Point3::new(Fixed::from_int(-4), one, zero), one, material2),
        Sphere::new(Point3::new(Fixed::from_int(4), one, zero), one, material3),
    )
}

/// Number of cells of the grid: 22 by 22.
pub const GRID_CELLS: usize = 484;

/// First coordinate of the grid cell `c`, counted row by row from
/// `(-11, -11)`.
pub open spec fn cell_a(c: int) -> int {
    c / 22 - 11
}

/// Second coordinate of the grid cell `c`.
pub open spec fn cell_b(c: int) -> int {
    c % 22 - 11
}

/// The small spheres of the first `n` cells of the grid, in the order of the
/// cells, where `draws[c]` holds the random numbers of the cell `c`.
pub open spec fn grid_spheres(draws: Seq<SmallDraw>, n: int) -> Seq<SphereModel>
    decreases n,
{
    if n <= 0 {
        Seq::empty()
    } else {
        let before = grid_spheres(draws, n - 1);
        match small_sphere_model(cell_a(n - 1), cell_b(n - 1), draws[n - 1]) {
            Some(s) => before.push(s),
            None => before,
        }
    }
}

/// Whether `scene` is the scene for the random numbers `draws`: the ground,
/// then the small spheres of the grid, then the three large spheres.
pub open spec fn scene_for(scene: Seq<SphereModel>, draws: Seq<SmallDraw>) -> bool {
    &&& draws.len() == GRID_CELLS
    &&& forall|c: int| 0 <= c < draws.len() ==> small_draw_valid(#[trigger] draws[c])
    &&& scene == seq![ground_model()] + grid_spheres(draws, GRID_CELLS as int) + seq![
        glass_ball_model(),
        matte_ball_model(),
        metal_ball_model(),
    ]
}

/// Whether `scene` is made as [`random_scene`] makes one, for some outcome of
/// the random draws.
pub open spec fn is_random_scene(scene: Seq<SphereModel>) -> bool {
    exists|draws: Seq<SmallDraw>| #[trigger] scene_for(scene, draws)
}

/// The spheres of the first `n` cells depend on the draws of these cells
/// alone, and there are at most `n` of them.
pub proof fn lemma_grid_spheres_prefix(first: Seq<SmallDraw>, second: Seq<SmallDraw>, n: int)
    requires
        0 <= n <= first.len(),
        n <= second.len(),
        forall|c: int| 0 <= c < n ==> first[c] == second[c],
    ensures
        grid_spheres(first, n) == grid_spheres(second, n),
        grid_spheres(first, n).len() <= n,
    decreases n,
{
    if n > 0 {
        lemma_grid_spheres_prefix(first, second, n - 1);
    }
}

/// A scene of a ground, up to 484 small random spheres on a grid of 22 by 22
/// cells, and three large spheres.
pub fn random_scene() -> (world: HittableList)
    ensures
        scene_wf(world@),
        is_random_scene(world@),
        4 <= world@.len() <= 488,
{
    let mut world = HittableList::new();
    world.add(ground());
    let ghost mut draws: Seq<SmallDraw> = Seq::empty();

    let mut a: i32 = -11;
    while a < 11
        invariant
            -11 <= a <= 11,
            scene_wf(world@),
            draws.len() == (a + 11) * 22,
            forall|c: int| 0 <= c < draws.len() ==> small_draw_valid(#[trigger] draws[c]),
            world@ == seq![ground_model()] + grid_spheres(draws, draws.len() as int),
        decreases 11 - a,
    {
        let mut b: i32 = -11;
        while b < 11
            invariant
                -11 <= a < 11,
                -11 <= b <= 11,
                scene_wf(world@),
                draws.len() == (a + 11) * 22 + (b + 11),
                forall|c: int| 0 <= c < draws.len() ==> small_draw_valid(#[trigger] draws[c]),
                world@ == seq![ground_model()] + grid_spheres(draws, draws.len() as int),
            decreases 11 - b,
        {
            let choose_mat = random_fraction();
            let jitter_x = random_fraction();
            let jitter_z = random_fraction();
            let first = Color::random();
            let second = Color::random();
            let fuzz = random_fraction();
            let ghost d = SmallDraw {
                choose_mat: choose_mat@,
                jitter_x: jitter_x@,
                jitter_z: jitter_z@,
                first: first@,
                second: second@,
                fuzz: fuzz@,
            };
            let ghost before = draws;
            let ghost spheres = world@;
            proof {
                let c = before.len() as int;
                draws = before.push(d);
                lemma_grid_spheres_prefix(before, draws, c);
                vstd::arithmetic::div_mod::lemma_fundamental_div_mod_converse(
                    c,
                    22,
                    a + 11,
                    b + 11,
                );
                assert(cell_a(c) == a && cell_b(c) == b);
                assert(draws[c] == d);
            }
            match small_sphere(a, b, choose_mat, jitter_x, jitter_z, first, second, fuzz) {
                Some(sphere) => {
                    world.add(sphere);
                    proof {
                        assert(world@ =~= seq![ground_model()] + grid_spheres(
                            draws,
                            draws.len() as int,
                        ));
                    }
                },
                None => {
                    proof {
                        assert(world@ =~= seq![ground_model()] + grid_spheres(
                            draws,
                            draws.len() as int,
                        ));
                    }
                },
            }
            b = b + 1;
        }
        a = a + 1;
    }
    let large = large_spheres();
    world.add(large.0);
    world.add(large.1);
    world.add(large.2);
    proof {
        lemma_grid_spheres_prefix(draws, draws, GRID_CELLS as int);
        assert(world@ =~= seq![ground_model()] + grid_spheres(draws, GRID_CELLS as int) + seq![
            glass_ball_model(),
            matte_ball_model(),
            metal_ball_model(),
        ]);
        assert(scene_for(world@, draws));
    }
    world
}

} // verus!
